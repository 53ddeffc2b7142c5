//! User-account records and the key-value store keys of the account
//! subsystem.
//!
//! Registration, login and persistence are neighbours of the messaging
//! core; the core itself only consumes an authenticated identity.  These
//! are the shapes those neighbours exchange, and the two verified key
//! builders of the account cache.

use vstd::prelude::*;

verus! {

/// Privilege class of a user.
#[derive(Clone, Copy, Debug, PartialEq, Eq, Structural)]
pub enum UserType {
    Normal,
    Admin,
    SuperAdmin,
}

/// Whether an account may be used.
#[derive(Clone, Copy, Debug, PartialEq, Eq, Structural)]
pub enum UserStatus {
    Available,
    Disabled,
}

/// The flow a verification code was requested for.
#[derive(Clone, Copy, Debug, PartialEq, Eq, Structural)]
pub enum SendEmailCodeFrom {
    Register,
    ChangePwd,
}

/// A user record with every field rendered for display.
pub struct UserFormatter {
    pub kind: String,
    pub email: String,
    pub status: String,
    pub name: String,
    pub mobile: String,
    pub laston: String,
    pub created_at: String,
    pub updated_at: String,
}

/// The authenticated user a valid token resolves to.  The session id of a
/// chat connection is this user's email.
pub struct CurrentUser {
    pub id: i64,
    pub kind: UserType,
    pub email: String,
    pub status: UserStatus,
    pub name: Option<String>,
    pub mobile: Option<String>,
    pub laston: Option<String>,
    pub created_at: String,
    pub updated_at: Option<String>,
    pub expire_at: String,
}

/// A login request: email and password.
pub struct LoginReq {
    pub email: String,
    pub pwd: String,
}

/// A request for an emailed verification code.
pub struct SendEmailCodeReq {
    pub email: String,
    pub from: SendEmailCodeFrom,
}

/// A password change request, authorized by an emailed code.
pub struct ChangePasswordReq {
    pub email: String,
    pub code: String,
    pub pwd: String,
}

/// Reply of a successful login: the issued token.
pub struct LoginDataResponse {
    pub data: String,
}

/// Reply carrying the authenticated user.
pub struct CurrentUserResponse {
    pub data: CurrentUser,
}

/// Reply of a code-sending request: how many mails went out.
pub struct SendEmailResponse {
    pub data: usize,
}

/// A profile update request.
pub struct UserUpdateReq {
    pub id: i64,
    pub name: Option<String>,
    pub mobile: Option<String>,
}

/// A registration request, authorized by an emailed code.
pub struct RegisterReq {
    pub email: String,
    pub pwd: String,
    pub code: String,
    pub name: Option<String>,
    pub mobile: Option<String>,
}

/// A deletion request naming the accounts to remove.
pub struct UserDeleteReq {
    pub ids: Vec<i64>,
}

/// The name of a code-request flow, as the cache keys spell it.
pub open spec fn spec_from_name(from: SendEmailCodeFrom) -> Seq<char> {
    match from {
        SendEmailCodeFrom::Register => "Register"@,
        SendEmailCodeFrom::ChangePwd => "ChangePwd"@,
    }
}

/// The cache key under which the verification code of `email` for the
/// given flow is stored: the email, `_mail_`, and the flow's name.
pub fn email_code_key(email: &str, from: &SendEmailCodeFrom) -> (res: String)
    ensures
        res@ == email@ + "_mail_"@ + spec_from_name(*from),
{
    let mut out = email.to_owned();
    out.append("_mail_");
    match from {
        SendEmailCodeFrom::Register => out.append("Register"),
        SendEmailCodeFrom::ChangePwd => out.append("ChangePwd"),
    }
    out
}

/// The cache key under which the session of `email` is stored: the email
/// followed by `_session`.
pub fn user_agent_key(email: &str) -> (res: String)
    ensures
        res@ == email@ + "_session"@,
{
    let mut out = email.to_owned();
    out.append("_session");
    out
}

} // verus!
