//! Authentication rules: e-mail validation, credential and session checks,
//! organisation roles, plan visibility and the active organisation of a
//! session.
//!
//! The database itself is not here: callers run the queries and hand the rows
//! to these functions, which decide.

use vstd::prelude::*;
use crate::editing::{char_is_whitespace, is_white_space, skip_back, skip_forward};
use crate::static_files::digit_char;
use crate::utf8_text::{byte_len, fits, lemma_byte_len_subrange, text_eq, CharTable};

verus! {

#[verifier::external_type_specification]
#[verifier::external_body]
pub struct ExSqlError(rusqlite::Error);

/// A login account.
pub struct AuthUser {
    pub id: String,
    pub email: String,
    pub is_admin: bool,
}

/// A user's role within an organisation.
#[derive(Clone, Copy, PartialEq, Eq, Debug, Structural)]
pub enum OrgRole {
    Admin,
    User,
    Viewer,
}

/// A user's membership of an organisation.
pub struct OrgMembership {
    pub org_id: String,
    pub org_name: String,
    pub role: OrgRole,
}

/// What an authenticated session knows about its user.
pub struct SessionInfo {
    pub user_id: String,
    pub email: String,
    pub is_admin: bool,
    pub org_memberships: Vec<OrgMembership>,
    pub active_org_id: Option<String>,
}

/// Why an authentication request was refused.
pub enum AuthError {
    InvalidCredentials,
    UserNotFound,
    UsernameTaken,
    InvalidEmail,
    SessionExpired,
    SessionNotFound,
    WrongPassword,
    Db(rusqlite::Error),
    OtherError(String),
}

/// Message of a non-admin login without any organisation.
pub open spec fn not_in_org_text() -> Seq<char> {
    "Your account is not assigned to an organisation.                          Please contact an administrator."@
}

/// Message of switching to an organisation the user does not belong to.
pub open spec fn not_a_member_text() -> Seq<char> {
    "Not a member of this organisation"@
}

/// Message of deleting an organisation that still has plans.
pub open spec fn org_has_plans_text() -> Seq<char> {
    "Cannot delete an organisation that has plans assigned to it. Reassign or unassign plans first."@
}

impl AuthError {
    /// The text shown to the user for this error.
    pub fn message(&self) -> (r: String)
        ensures
            match *self {
                AuthError::InvalidCredentials => r@ == "Invalid email or password"@,
                AuthError::UserNotFound => r@ == "User not found"@,
                AuthError::UsernameTaken => r@ == "Email address already registered"@,
                AuthError::InvalidEmail => r@ == "Username must be a valid email address"@,
                AuthError::SessionExpired => r@ == "Session expired — please log in again"@,
                AuthError::SessionNotFound => r@ == "Session not found — please log in again"@,
                AuthError::WrongPassword => r@ == "Incorrect current password"@,
                AuthError::Db(e) => r@ == "Database error: "@ + sql_error_display(e),
                AuthError::OtherError(msg) => r@ == msg@,
            },
    {
        match self {
            AuthError::InvalidCredentials => "Invalid email or password".to_owned(),
            AuthError::UserNotFound => "User not found".to_owned(),
            AuthError::UsernameTaken => "Email address already registered".to_owned(),
            AuthError::InvalidEmail => "Username must be a valid email address".to_owned(),
            AuthError::SessionExpired => "Session expired — please log in again".to_owned(),
            AuthError::SessionNotFound => "Session not found — please log in again".to_owned(),
            AuthError::WrongPassword => "Incorrect current password".to_owned(),
            AuthError::Db(e) => {
                let mut r = "Database error: ".to_owned();
                let detail = sql_error_text(e);
                r.append(detail.as_str());
                r
            },
            AuthError::OtherError(msg) => msg.clone(),
        }
    }
}

/// Name for the `Display` text of a database error, which depends on the
/// error value alone.
pub uninterp spec fn sql_error_display(e: rusqlite::Error) -> Seq<char>;

/// Name for whether a database error is SQLite's constraint violation (the
/// `SqliteFailure` variant with code `ConstraintViolation`), which depends on
/// the error value alone.
pub uninterp spec fn sql_constraint_violation(e: rusqlite::Error) -> bool;

/// Calls `to_string` on a database error, which gives its `Display` text.
#[verifier::external_body]
fn sql_error_text(e: &rusqlite::Error) -> (r: String)
    ensures
        r@ == sql_error_display(*e),
{
    e.to_string()
}

/// Whether a database error is a constraint violation (such as a duplicate
/// unique key or a restricted foreign key): the `SqliteFailure` variant with
/// code `ConstraintViolation`.
#[verifier::external_body]
fn is_constraint_violation(e: &rusqlite::Error) -> (r: bool)
    ensures
        r == sql_constraint_violation(*e),
{
    if let rusqlite::Error::SqliteFailure(ref err, _) = *e {
        err.code == rusqlite::ErrorCode::ConstraintViolation
    } else {
        false
    }
}

/// The error for a failed insert or update of a user's e-mail: a constraint
/// violation means the address is taken, anything else is a database error.
pub fn user_write_error(e: rusqlite::Error) -> (r: AuthError)
    ensures
        sql_constraint_violation(e) ==> r is UsernameTaken,
        !sql_constraint_violation(e) ==> r == AuthError::Db(e),
{
    let constraint_violation = is_constraint_violation(&e);
    user_write_outcome(e, constraint_violation)
}

/// The error for a failed insert or update of a user's e-mail, given whether
/// the database reported a constraint violation (the address is taken) or
/// not (the database error itself is passed on).
pub fn user_write_outcome(e: rusqlite::Error, constraint_violation: bool) -> (r: AuthError)
    ensures
        constraint_violation ==> r is UsernameTaken,
        !constraint_violation ==> r == AuthError::Db(e),
{
    if constraint_violation {
        AuthError::UsernameTaken
    } else {
        AuthError::Db(e)
    }
}

/// The error for a failed organisation delete: a constraint violation means
/// plans are still assigned to it, anything else is a database error.
pub fn org_delete_error(e: rusqlite::Error) -> (r: AuthError)
    ensures
        sql_constraint_violation(e) ==> (r matches AuthError::OtherError(m) && m@
            == org_has_plans_text()),
        !sql_constraint_violation(e) ==> r == AuthError::Db(e),
{
    let constraint_violation = is_constraint_violation(&e);
    org_delete_outcome(e, constraint_violation)
}

/// The error for a failed organisation delete, given whether the database
/// reported a constraint violation (plans are still assigned to it) or not
/// (the database error itself is passed on).
pub fn org_delete_outcome(e: rusqlite::Error, constraint_violation: bool) -> (r: AuthError)
    ensures
        constraint_violation ==> (r matches AuthError::OtherError(m) && m@ == org_has_plans_text()),
        !constraint_violation ==> r == AuthError::Db(e),
{
    if constraint_violation {
        AuthError::OtherError(
            "Cannot delete an organisation that has plans assigned to it. Reassign or unassign plans first.".to_owned(),
        )
    } else {
        AuthError::Db(e)
    }
}

// ── E-mail validation ─────────────────────────────────────────────────────────

/// `cs` without its leading and trailing whitespace.
pub open spec fn trimmed(cs: Seq<char>) -> Seq<char> {
    let a = skip_forward(cs, 0, true);
    if a >= cs.len() {
        Seq::empty()
    } else {
        cs.subrange(a, skip_back(cs, cs.len() as int, true))
    }
}

/// Calls `str::trim`, which removes leading and trailing `White_Space` chars.
#[verifier::external_body]
fn trim(s: &str) -> (r: &str)
    ensures
        r@ == trimmed(s@),
{
    s.trim()
}

/// Index of the first `c` in `cs` at or after `i`.
pub open spec fn first_index_of(cs: Seq<char>, c: char, i: int) -> Option<int>
    decreases cs.len() - i,
{
    if i < 0 || i >= cs.len() {
        None
    } else if cs[i] == c {
        Some(i)
    } else {
        first_index_of(cs, c, i + 1)
    }
}

/// Index of the last `c` among the first `j` chars of `cs`.
pub open spec fn last_index_of(cs: Seq<char>, c: char, j: int) -> Option<int>
    decreases j,
{
    if j <= 0 || j > cs.len() {
        None
    } else if cs[j - 1] == c {
        Some(j - 1)
    } else {
        last_index_of(cs, c, j - 1)
    }
}

/// A plausible address `local@domain.tld`: exactly one `@`, a non-empty part
/// before it, a non-empty domain after it whose last `.` has something on both
/// sides, and no space anywhere.
pub open spec fn plausible_email(t: Seq<char>) -> bool {
    match first_index_of(t, '@', 0) {
        None => false,
        Some(at) => {
            let domain = t.skip(at + 1);
            &&& at > 0
            &&& first_index_of(t, '@', at + 1) is None
            &&& domain.len() > 0
            &&& match last_index_of(domain, '.', domain.len() as int) {
                None => false,
                Some(dot) => dot > 0 && dot + 1 < domain.len(),
            }
            &&& first_index_of(t, ' ', 0) is None
        },
    }
}

proof fn lemma_first_index_range(cs: Seq<char>, c: char, i: int)
    requires
        0 <= i,
    ensures
        first_index_of(cs, c, i) matches Some(j) ==> i <= j < cs.len() && cs[j] == c,
    decreases cs.len() - i,
{
    if i < cs.len() && cs[i] != c {
        lemma_first_index_range(cs, c, i + 1);
    }
}

proof fn lemma_last_index_range(cs: Seq<char>, c: char, j: int)
    ensures
        last_index_of(cs, c, j) matches Some(i) ==> 0 <= i < j && cs[i] == c,
    decreases j,
{
    if 0 < j <= cs.len() && cs[j - 1] != c {
        lemma_last_index_range(cs, c, j - 1);
    }
}

proof fn lemma_first_index_none(cs: Seq<char>, c: char, i: int)
    requires
        0 <= i,
        forall|j: int| i <= j < cs.len() ==> cs[j] != c,
    ensures
        first_index_of(cs, c, i) is None,
    decreases cs.len() - i,
{
    if i < cs.len() {
        lemma_first_index_none(cs, c, i + 1);
    }
}

proof fn lemma_first_index_found(cs: Seq<char>, c: char, i: int, k: int)
    requires
        0 <= i <= k < cs.len(),
        cs[k] == c,
        forall|j: int| i <= j < k ==> cs[j] != c,
    ensures
        first_index_of(cs, c, i) == Some(k),
    decreases k - i,
{
    if i < k {
        lemma_first_index_found(cs, c, i + 1, k);
    }
}

proof fn lemma_last_index_found(cs: Seq<char>, c: char, j: int, k: int)
    requires
        0 <= k < j <= cs.len(),
        cs[k] == c,
        forall|m: int| k < m < j ==> cs[m] != c,
    ensures
        last_index_of(cs, c, j) == Some(k),
    decreases j - k,
{
    if k < j - 1 {
        lemma_last_index_found(cs, c, j - 1, k);
    }
}

/// An address is refused only for the stated reasons: a text with exactly
/// one `@`, something before it, a domain after it whose last `.` has chars
/// on both sides, and no space is plausible, whatever its other chars
/// (hyphens, plus signs, digits, underscores, …).
pub proof fn lemma_structural_email_accepted(t: Seq<char>, at: int, dot: int)
    requires
        0 < at < t.len(),
        t[at] == '@',
        forall|j: int| 0 <= j < t.len() && j != at ==> t[j] != '@',
        at + 1 < dot < t.len() - 1,
        t[dot] == '.',
        forall|j: int| dot < j < t.len() ==> t[j] != '.',
        forall|j: int| 0 <= j < t.len() ==> t[j] != ' ',
    ensures
        plausible_email(t),
{
    lemma_first_index_found(t, '@', 0, at);
    lemma_first_index_none(t, '@', at + 1);
    lemma_first_index_none(t, ' ', 0);
    let domain = t.skip(at + 1);
    let d = dot - (at + 1);
    assert forall|m: int| d < m < domain.len() implies domain[m] != '.' by {
        assert(domain[m] == t[m + at + 1]);
    }
    lemma_last_index_found(domain, '.', domain.len() as int, d);
}

fn find_first(cs: &Vec<char>, c: char) -> (r: Option<usize>)
    ensures
        r is Some <==> first_index_of(cs@, c, 0) is Some,
        r matches Some(i) ==> first_index_of(cs@, c, 0) == Some(i as int) && i < cs@.len(),
{
    find_from(cs, c, 0)
}

/// Index of the first `c` in `cs` at or after `from`.
fn find_from(cs: &Vec<char>, c: char, from: usize) -> (r: Option<usize>)
    ensures
        r is Some <==> first_index_of(cs@, c, from as int) is Some,
        r matches Some(i) ==> first_index_of(cs@, c, from as int) == Some(i as int) && i
            < cs@.len(),
{
    proof {
        lemma_first_index_range(cs@, c, from as int);
    }
    let n = cs.len();
    if from >= n {
        return None;
    }
    let mut i: usize = from;
    while i < n
        invariant
            n == cs@.len(),
            from <= i <= n,
            first_index_of(cs@, c, i as int) == first_index_of(cs@, c, from as int),
        decreases n - i,
    {
        if cs[i] == c {
            return Some(i);
        }
        i = i + 1;
    }
    None
}

proof fn lemma_skip_forward_stops(cs: Seq<char>, k: int)
    requires
        0 <= k <= cs.len(),
    ensures
        k <= skip_forward(cs, k, true) <= cs.len(),
        skip_forward(cs, k, true) < cs.len() ==> !is_white_space(cs[skip_forward(cs, k, true)]),
    decreases cs.len() - k,
{
    if k < cs.len() && is_white_space(cs[k]) {
        lemma_skip_forward_stops(cs, k + 1);
    }
}

proof fn lemma_skip_back_stops(cs: Seq<char>, k: int, m: int)
    requires
        0 <= m < k <= cs.len(),
        !is_white_space(cs[m]),
    ensures
        m < skip_back(cs, k, true) <= k,
    decreases k,
{
    if k - 1 > m && is_white_space(cs[k - 1]) {
        lemma_skip_back_stops(cs, k - 1, m);
    }
}

/// The trimmed text fits whenever the text does.
proof fn lemma_trimmed_fits(cs: Seq<char>)
    requires
        fits(cs),
    ensures
        fits(trimmed(cs)),
{
    lemma_skip_forward_stops(cs, 0);
    let a = skip_forward(cs, 0, true);
    if a < cs.len() {
        lemma_skip_back_stops(cs, cs.len() as int, a);
        lemma_byte_len_subrange(cs, a, skip_back(cs, cs.len() as int, true));
    } else {
        assert(vstd::utf8::encode_utf8(Seq::<char>::empty()) =~= Seq::<u8>::empty());
    }
}

/// Validate that `s` is a plausible email address (local@domain.tld).
/// This is intentionally permissive — it just checks structure, not deliverability.
pub fn validate_email(s: &str) -> (r: Result<(), AuthError>)
    requires
        fits(s@),
    ensures
        r is Ok <==> plausible_email(trimmed(s@)),
        r is Err ==> r matches Err(AuthError::InvalidEmail),
{
    let t = trim(s);
    proof {
        lemma_trimmed_fits(s@);
    }
    let table = CharTable::of(t);
    let cs = &table.chars;
    let n = cs.len();
    let at = match find_first(cs, '@') {
        Some(at) => at,
        None => return Err(AuthError::InvalidEmail),
    };
    if at == 0 {
        return Err(AuthError::InvalidEmail);
    }
    if find_from(cs, '@', at + 1).is_some() {
        return Err(AuthError::InvalidEmail);
    }
    let ghost domain = cs@.skip(at + 1);
    if at + 1 >= n {
        return Err(AuthError::InvalidEmail);
    }
    assert(domain.len() > 0);
    let dot = find_last_in_suffix(cs, '.', at + 1);
    match dot {
        None => {
            return Err(AuthError::InvalidEmail);
        },
        Some(d) => {
            if d == 0 || d + 1 >= n - (at + 1) {
                return Err(AuthError::InvalidEmail);
            }
        },
    }
    if find_first(cs, ' ').is_some() {
        return Err(AuthError::InvalidEmail);
    }
    Ok(())
}

/// Index, within the suffix of `cs` starting at `from`, of the last `c` in it.
fn find_last_in_suffix(cs: &Vec<char>, c: char, from: usize) -> (r: Option<usize>)
    requires
        from <= cs@.len(),
    ensures
        r is Some <==> last_index_of(cs@.skip(from as int), c, cs@.len() - from) is Some,
        r matches Some(i) ==> last_index_of(cs@.skip(from as int), c, cs@.len() - from) == Some(
            i as int,
        ) && i < cs@.len() - from,
{
    let ghost d = cs@.skip(from as int);
    proof {
        lemma_last_index_range(d, c, d.len() as int);
    }
    let n = cs.len();
    let mut j = n - from;
    while j > 0
        invariant
            from <= cs@.len(),
            d == cs@.skip(from as int),
            j <= d.len(),
            from + j <= cs@.len(),
            n == cs@.len(),
            last_index_of(d, c, j as int) == last_index_of(d, c, d.len() as int),
        decreases j,
    {
        if cs[from + j - 1] == c {
            assert(d[j - 1] == c);
            return Some(j - 1);
        }
        assert(d[j - 1] != c);
        j = j - 1;
    }
    None
}

// ── Roles ─────────────────────────────────────────────────────────────────────

/// The role stored as `s`: `"Admin"`, `"User"`, anything else is a viewer.
pub open spec fn role_of_text(s: Seq<char>) -> OrgRole {
    if s == "Admin"@ {
        OrgRole::Admin
    } else if s == "User"@ {
        OrgRole::User
    } else {
        OrgRole::Viewer
    }
}

/// Parses a stored role name.
pub fn org_role_from_str(s: &str) -> (r: OrgRole)
    ensures
        r == role_of_text(s@),
{
    if text_eq(s, "Admin") {
        OrgRole::Admin
    } else if text_eq(s, "User") {
        OrgRole::User
    } else {
        OrgRole::Viewer
    }
}

/// Whether an optional role is the organisation-admin role.
pub fn is_admin_role(role: Option<OrgRole>) -> (r: bool)
    ensures
        r == (role == Some(OrgRole::Admin)),
{
    match role {
        Some(OrgRole::Admin) => true,
        _ => false,
    }
}

// ── Credentials and sessions ──────────────────────────────────────────────────

/// Name for the result of `bcrypt::verify(password, hash)`: `None` when the
/// hash is malformed, otherwise whether the password matches.
pub uninterp spec fn bcrypt_verify_result(password: Seq<char>, hash: Seq<char>) -> Option<bool>;

/// Calls `bcrypt::verify`; an error (malformed hash) becomes `None`.
#[verifier::external_body]
fn bcrypt_verify(password: &str, hash: &str) -> (r: Option<bool>)
    ensures
        r == bcrypt_verify_result(password@, hash@),
{
    bcrypt::verify(password, hash).ok()
}

/// The decision on a login attempt, given the stored account (id, password
/// hash, admin flag) of the e-mail, if any, and the result of checking the
/// password against the hash.
pub fn credentials_outcome(account: Option<(String, String, bool)>, verified: Option<bool>) -> (r:
    Result<(String, bool), AuthError>)
    ensures
        match account {
            None => r matches Err(AuthError::InvalidCredentials),
            Some((id, _, is_admin)) => if verified == Some(true) {
                r == Ok::<(String, bool), AuthError>((id, is_admin))
            } else {
                r matches Err(AuthError::InvalidCredentials)
            },
        },
{
    match account {
        None => Err(AuthError::InvalidCredentials),
        Some((id, _hash, is_admin)) => {
            match verified {
                Some(true) => Ok((id, is_admin)),
                _ => Err(AuthError::InvalidCredentials),
            }
        },
    }
}

/// Checks `password` against the stored account of the e-mail, if any.
pub fn check_credentials(account: Option<(String, String, bool)>, password: &str) -> (r: Result<
    (String, bool),
    AuthError,
>)
    ensures
        match account {
            None => r matches Err(AuthError::InvalidCredentials),
            Some((id, hash, is_admin)) => if bcrypt_verify_result(password@, hash@) == Some(true) {
                r == Ok::<(String, bool), AuthError>((id, is_admin))
            } else {
                r matches Err(AuthError::InvalidCredentials)
            },
        },
{
    let verified = match &account {
        None => None,
        Some((_, hash, _)) => bcrypt_verify(password, hash.as_str()),
    };
    credentials_outcome(account, verified)
}

/// The bcrypt cost passwords are hashed with (bcrypt's default).
pub const PASSWORD_COST: u32 = 12;

/// The error of a password hash that could not be made.
pub open spec fn hash_failed_text() -> Seq<char> {
    "bcrypt hash failed"@
}

/// The start of a bcrypt hash of version 2b made with `cost`: `$2b$`, the
/// cost in two decimal digits, and `$`.
pub open spec fn bcrypt_prefix(cost: nat) -> Seq<char> {
    seq!['$', '2', 'b', '$', digit_char(cost / 10), digit_char(cost % 10), '$']
}

/// Calls `bcrypt::hash`, which salts with fresh OS randomness, so two calls
/// give different hashes. It fails (here: `None`) when `cost` is outside
/// 4..=31 or the OS gives no randomness. A hash it returns is 60 chars long,
/// starts with `$2b$`, the two-digit cost and `$`, and is one that
/// `bcrypt::verify` accepts for the same password, since verifying recomputes
/// it from the cost and salt written in the hash.
#[verifier::external_body]
fn bcrypt_hash(password: &str, cost: u32) -> (r: Option<String>)
    ensures
        !(4 <= cost <= 31) ==> r is None,
        r matches Some(h) ==> bcrypt_verify_result(password@, h@) == Some(true),
        r matches Some(h) ==> h@.len() == 60 && h@.take(7) == bcrypt_prefix(cost as nat),
{
    bcrypt::hash(password, cost).ok()
}

/// A bcrypt hash of `password` to store: one that verifies `password`. It
/// fails only when the OS gives no randomness for the salt.
pub fn hash_password(password: &str) -> (r: Result<String, AuthError>)
    ensures
        r matches Ok(h) ==> bcrypt_verify_result(password@, h@) == Some(true),
        r matches Ok(h) ==> h@.len() == 60 && h@.take(7) == bcrypt_prefix(PASSWORD_COST as nat),
        r matches Err(e) ==> (e matches AuthError::OtherError(m) && m@ == hash_failed_text()),
{
    match bcrypt_hash(password, PASSWORD_COST) {
        Some(h) => Ok(h),
        None => Err(AuthError::OtherError("bcrypt hash failed".to_owned())),
    }
}

/// The account to create when the database has `user_count` users: with
/// none at all, the administrator `root@localhost` with password `root`
/// (to be changed after the first login); otherwise none.
pub fn bootstrap_account(user_count: i64) -> (r: Option<(&'static str, &'static str)>)
    ensures
        r is Some <==> user_count == 0,
        r matches Some((email, password)) ==> email@ == "root@localhost"@ && password@ == "root"@,
{
    if user_count == 0 {
        Some(("root@localhost", "root"))
    } else {
        None
    }
}

/// The stored hash of a new account with e-mail `email` and password
/// `password`: refused with `InvalidEmail` unless the e-mail is plausible,
/// and otherwise a hash that verifies the password.
pub fn new_account_hash(email: &str, password: &str) -> (r: Result<String, AuthError>)
    requires
        fits(email@),
    ensures
        !plausible_email(trimmed(email@)) ==> r matches Err(AuthError::InvalidEmail),
        r matches Ok(h) ==> plausible_email(trimmed(email@)) && bcrypt_verify_result(
            password@,
            h@,
        ) == Some(true),
        plausible_email(trimmed(email@)) && r is Err ==> (r matches Err(AuthError::OtherError(m))
            && m@ == hash_failed_text()),
        r matches Ok(h) ==> h@.len() == 60 && h@.take(7) == bcrypt_prefix(PASSWORD_COST as nat),
{
    match validate_email(email) {
        Err(e) => Err(e),
        Ok(()) => hash_password(password),
    }
}

/// The new stored hash of a password change, given the user's stored hash
/// (if the user exists): refused with `UserNotFound` or `WrongPassword` as
/// [`check_password_change`] decides, and otherwise a hash that verifies
/// the new password.
pub fn password_change_hash(stored_hash: Option<String>, old_password: &str, new_password: &str) -> (r:
    Result<String, AuthError>)
    ensures
        stored_hash is None ==> r matches Err(AuthError::UserNotFound),
        stored_hash matches Some(h) && bcrypt_verify_result(old_password@, h@) != Some(true)
            ==> r matches Err(AuthError::WrongPassword),
        r matches Ok(nh) ==> (stored_hash matches Some(h) && bcrypt_verify_result(old_password@, h@)
            == Some(true)) && bcrypt_verify_result(new_password@, nh@) == Some(true),
        (stored_hash matches Some(h) && bcrypt_verify_result(old_password@, h@) == Some(true))
            && r is Err ==> (r matches Err(AuthError::OtherError(m)) && m@ == hash_failed_text()),
        r matches Ok(nh) ==> nh@.len() == 60 && nh@.take(7) == bcrypt_prefix(PASSWORD_COST as nat),
{
    match check_password_change(stored_hash, old_password) {
        Err(e) => Err(e),
        Ok(()) => hash_password(new_password),
    }
}

/// The decision on a password change, given the user's stored password hash
/// (if the user exists) and the result of checking the old password against it.
pub fn password_change_outcome(stored_hash: Option<String>, verified: Option<bool>) -> (r: Result<
    (),
    AuthError,
>)
    ensures
        stored_hash is None ==> r matches Err(AuthError::UserNotFound),
        stored_hash is Some ==> (r is Ok <==> verified == Some(true)),
        stored_hash is Some && r is Err ==> r matches Err(AuthError::WrongPassword),
{
    match stored_hash {
        None => Err(AuthError::UserNotFound),
        Some(_) => match verified {
            Some(true) => Ok(()),
            _ => Err(AuthError::WrongPassword),
        },
    }
}

/// Checks the old password of a password change against the user's stored
/// hash, if the user exists.
pub fn check_password_change(stored_hash: Option<String>, old_password: &str) -> (r: Result<
    (),
    AuthError,
>)
    ensures
        match stored_hash {
            None => r matches Err(AuthError::UserNotFound),
            Some(h) => if bcrypt_verify_result(old_password@, h@) == Some(true) {
                r is Ok
            } else {
                r matches Err(AuthError::WrongPassword)
            },
        },
{
    let verified = match &stored_hash {
        None => None,
        Some(h) => bcrypt_verify(old_password, h.as_str()),
    };
    password_change_outcome(stored_hash, verified)
}

/// A non-admin must belong to at least one organisation to log in.
pub fn org_requirement(is_admin: bool, org_count: i64) -> (r: Result<(), AuthError>)
    ensures
        r is Ok <==> (is_admin || org_count != 0),
        r matches Err(e) ==> e matches AuthError::OtherError(m) && m@ == not_in_org_text(),
{
    if !is_admin && org_count == 0 {
        return Err(AuthError::OtherError("Your account is not assigned to an organisation.                          Please contact an administrator.".to_owned()));
    }
    Ok(())
}

/// Name for the result of `DateTime::parse_from_rfc3339(s)`, as the UNIX
/// seconds and nanoseconds of the instant it denotes (`None` when `s` does not
/// parse).
pub uninterp spec fn rfc3339_instant(s: Seq<char>) -> Option<(i64, u32)>;

/// Calls `DateTime::parse_from_rfc3339` and reads the instant's UNIX seconds
/// and sub-second nanoseconds.
#[verifier::external_body]
fn parse_rfc3339(s: &str) -> (r: Option<(i64, u32)>)
    ensures
        r == rfc3339_instant(s@),
{
    chrono::DateTime::parse_from_rfc3339(s).ok().map(|d| (d.timestamp(), d.timestamp_subsec_nanos()))
}

/// Instant `a` lies strictly after instant `b`.
pub open spec fn later(a: (i64, u32), b: (i64, u32)) -> bool {
    a.0 > b.0 || (a.0 == b.0 && a.1 > b.1)
}

/// The decision on a session's expiry time (as parsed), at instant `now`:
/// expired when it does not parse or `now` is after it.
pub fn expiry_outcome(expires: Option<(i64, u32)>, now: (i64, u32)) -> (r: Result<(), AuthError>)
    ensures
        r is Ok <==> (expires matches Some(e) && !later(now, e)),
        r is Err ==> r matches Err(AuthError::SessionExpired),
{
    match expires {
        None => Err(AuthError::SessionExpired),
        Some(e) => {
            if now.0 > e.0 || (now.0 == e.0 && now.1 > e.1) {
                Err(AuthError::SessionExpired)
            } else {
                Ok(())
            }
        },
    }
}

/// Checks a session's stored expiry time (RFC 3339 text) at instant `now`.
pub fn check_session_expiry(expires_at: &str, now: (i64, u32)) -> (r: Result<(), AuthError>)
    ensures
        r is Ok <==> (rfc3339_instant(expires_at@) matches Some(e) && !later(now, e)),
        r is Err ==> r matches Err(AuthError::SessionExpired),
{
    let parsed = parse_rfc3339(expires_at);
    expiry_outcome(parsed, now)
}

/// Name for the result of formatting the UTC instant at UNIX seconds `secs`
/// and nanoseconds `nanos` with `DateTime::to_rfc3339` (`None` when chrono
/// cannot represent the instant).
pub uninterp spec fn rfc3339_text(secs: i64, nanos: u32) -> Option<Seq<char>>;

/// Calls `DateTime::from_timestamp` and formats the result with `to_rfc3339`.
#[verifier::external_body]
fn format_rfc3339(secs: i64, nanos: u32) -> (r: Option<String>)
    ensures
        r matches Some(t) ==> rfc3339_text(secs, nanos) == Some(t@),
        r is None ==> rfc3339_text(secs, nanos) is None,
{
    chrono::DateTime::from_timestamp(secs, nanos).map(|d| d.to_rfc3339())
}

/// Seconds in the lifetime of a login session (seven days).
pub const SESSION_SECONDS: i64 = 604800;

/// The expiry time (RFC 3339 text) of a session started at `now`: seven days
/// later, or `None` when that instant cannot be represented.
pub fn session_expiry(now: (i64, u32)) -> (r: Option<String>)
    ensures
        now.0 + SESSION_SECONDS > i64::MAX ==> r is None,
        now.0 + SESSION_SECONDS <= i64::MAX ==> match rfc3339_text(
            (now.0 + SESSION_SECONDS) as i64,
            now.1,
        ) {
            Some(t) => r matches Some(x) && x@ == t,
            None => r is None,
        },
{
    if now.0 > i64::MAX - SESSION_SECONDS {
        return None;
    }
    format_rfc3339(now.0 + SESSION_SECONDS, now.1)
}

// ── Active organisation ──────────────────────────────────────────────────────

/// `org` is the id of one of the memberships.
pub open spec fn is_member_of(ms: Seq<OrgMembership>, org: Seq<char>) -> bool {
    exists|i: int| 0 <= i < ms.len() && (#[trigger] ms[i]).org_id@ == org
}

/// The active organisation of a session: the stored one while the user is
/// still a member of it, otherwise the first membership (if any).
pub open spec fn resolved_active_org(stored: Option<Seq<char>>, ms: Seq<OrgMembership>) -> Option<
    Seq<char>,
> {
    match stored {
        Some(o) if is_member_of(ms, o) => Some(o),
        _ => if ms.len() > 0 {
            Some(ms[0].org_id@)
        } else {
            None
        },
    }
}

/// The view of an optional string.
pub open spec fn opt_view(o: Option<String>) -> Option<Seq<char>> {
    match o {
        Some(s) => Some(s@),
        None => None,
    }
}

/// Decides the active organisation of a session from the stored value and the
/// user's memberships.  The flag says whether the stored value must be
/// replaced by the result (it was missing or no longer valid and a membership
/// exists).
pub fn resolve_active_org(stored: Option<String>, memberships: &Vec<OrgMembership>) -> (r: (
    Option<String>,
    bool,
))
    ensures
        opt_view(r.0) == resolved_active_org(opt_view(stored), memberships@),
        r.1 <==> (!(opt_view(stored) matches Some(o) && is_member_of(memberships@, o))
            && memberships@.len() > 0),
{
    let valid = match &stored {
        Some(oid) => {
            let mut found = false;
            let mut i: usize = 0;
            while i < memberships.len()
                invariant
                    i <= memberships@.len(),
                    found <==> exists|j: int|
                        0 <= j < i && (#[trigger] memberships@[j]).org_id@ == oid@,
                decreases memberships@.len() - i,
            {
                if text_eq(memberships[i].org_id.as_str(), oid.as_str()) {
                    found = true;
                }
                i = i + 1;
            }
            found
        },
        None => false,
    };
    if valid {
        (stored, false)
    } else if memberships.len() > 0 {
        (Some(memberships[0].org_id.clone()), true)
    } else {
        (None, false)
    }
}

/// The decision on switching a session's active organisation, given the
/// session's user (if the session exists) and how many memberships the user
/// has in the target organisation.
pub fn active_org_switch(session_user: Option<String>, member_count: i64) -> (r: Result<
    String,
    AuthError,
>)
    ensures
        match session_user {
            None => r matches Err(AuthError::SessionNotFound),
            Some(u) => if member_count == 0 {
                r matches Err(AuthError::OtherError(m)) && m@ == not_a_member_text()
            } else {
                r matches Ok(x) && x@ == u@
            },
        },
{
    match session_user {
        None => Err(AuthError::SessionNotFound),
        Some(u) => {
            if member_count == 0 {
                Err(AuthError::OtherError("Not a member of this organisation".to_owned()))
            } else {
                Ok(u)
            }
        },
    }
}

// ── Plan visibility ──────────────────────────────────────────────────────────

/// What the database says about one plan for one user: the plan's
/// organisation, the user's role there, and the user's explicit permission on
/// the plan (each as stored, if any).
pub struct PlanAccess {
    pub org_id: Option<String>,
    pub role: Option<String>,
    pub permission: Option<String>,
}

/// A plan is visible to a non-admin user when it belongs to an organisation
/// the user is a member of, and the user is an admin there or has no explicit
/// `NoAccess` on it.  Admins see every plan.
pub open spec fn plan_visible_spec(is_admin: bool, a: PlanAccess) -> bool {
    if is_admin {
        true
    } else {
        match a.org_id {
            None => false,
            Some(_) => match a.role {
                None => false,
                Some(r) => r@ == "Admin"@ || !(a.permission matches Some(p) && p@ == "NoAccess"@),
            },
        }
    }
}

/// Decides whether one plan is visible to the user.
pub fn plan_visible(is_admin: bool, access: &PlanAccess) -> (r: bool)
    ensures
        r == plan_visible_spec(is_admin, *access),
{
    if is_admin {
        return true;
    }
    match &access.org_id {
        None => false,
        Some(_) => match &access.role {
            None => false,
            Some(role) => {
                if text_eq(role.as_str(), "Admin") {
                    true
                } else {
                    match &access.permission {
                        Some(p) => !text_eq(p.as_str(), "NoAccess"),
                        None => true,
                    }
                }
            },
        },
    }
}

/// The ids of the visible plans, in their original order.
pub open spec fn visible_ids(is_admin: bool, plans: Seq<(u128, PlanAccess)>) -> Seq<u128>
    decreases plans.len(),
{
    if plans.len() == 0 {
        Seq::empty()
    } else {
        let rest = visible_ids(is_admin, plans.drop_last());
        let last = plans.last();
        if plan_visible_spec(is_admin, last.1) {
            rest.push(last.0)
        } else {
            rest
        }
    }
}

/// Filters plan ids (as 128-bit UUID values) to those visible to the user.
/// Admins always see all plans.
pub fn filter_visible_plans(is_admin: bool, plans: &Vec<(u128, PlanAccess)>) -> (r: Vec<u128>)
    ensures
        r@ == visible_ids(is_admin, plans@),
{
    let mut r: Vec<u128> = Vec::new();
    let mut i: usize = 0;
    while i < plans.len()
        invariant
            i <= plans@.len(),
            r@ == visible_ids(is_admin, plans@.take(i as int)),
        decreases plans@.len() - i,
    {
        assert(plans@.take(i + 1).drop_last() =~= plans@.take(i as int));
        if plan_visible(is_admin, &plans[i].1) {
            r.push(plans[i].0);
        }
        i = i + 1;
    }
    assert(plans@.take(plans@.len() as int) =~= plans@);
    r
}

} // verus!
