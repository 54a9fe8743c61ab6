//! The records kept in the database: users, note-card permissions, and what
//! the account and note-card queries make of the rows they read.
use vstd::prelude::*;
use vstd::string::StringSliceAdditionalSpecFns;

use crate::ids::{is_uuid_text, is_uuid_v4_text, random_token, random_uuid_text, time_ordered_uuid_text};
use crate::text::{json_quote, json_string, owned};
use argon2::{PasswordHasher, PasswordVerifier};

verus! {

/// One value of a database row as the library sees it; values of other kinds
/// (floating point) are `Other`.
pub enum DbValue {
    Null,
    Integer(i64),
    Text(String),
    Blob(Vec<u8>),
    Other,
}

/// What can go wrong with the stored records.
pub enum CoreDatatypeError {
    DatabaseDisconnect,
    UserDoesNotExist,
    DuplicateUsername,
    ValueNotText,
    PasswordHashIsError,
    IdNotFound,
    DuplicateEntries,
    SomethingWentWrong,
    DoesNotExist,
    ToStringFailed,
    NotInteger,
    ArrayLenIsZero,
    ParseFailed,
    UpdateFailed,
}

/// The credentials of the database.
pub struct DBSecrets {
    pub turso_url: String,
    pub auth_token: String,
}

/// The secrets the server starts with.
pub struct AwsSecrets {
    pub turso_url: String,
    pub auth_token: String,
    pub zone_id: String,
    pub auth_key: String,
    pub auth_email: String,
    pub cloudflare_cert: String,
    pub cloudflare_key: String,
    pub r2accountid: String,
    pub r2accesskeyid: String,
    pub r2secretaccesskey: String,
    pub turnstileSecret: String,
}

impl DBSecrets {
    /// The database's credentials among the server's secrets.
    pub fn try_to_get_secrets(secrets: AwsSecrets) -> (r: DBSecrets)
        ensures
            r.turso_url == secrets.turso_url,
            r.auth_token == secrets.auth_token,
    {
        DBSecrets { turso_url: secrets.turso_url, auth_token: secrets.auth_token }
    }
}

/// What an account may do.
pub struct Permissions {
    pub can_upload_notecards: bool,
    pub can_access_notecards: bool,
    pub can_pogoot: bool,
    pub can_access_website: bool,
}

/// The views of a list of names.
pub open spec fn names(v: Seq<String>) -> Seq<Seq<char>> {
    v.map_values(|s: String| s@)
}

/// Who may access a note-card set. `None` for editors or viewers means
/// everyone.
pub struct BasicPermissionManager {
    owners: Vec<String>,
    /// `None` means that everyone can edit.
    editors: Option<Vec<String>>,
    /// `None` means that everyone can view.
    viewers: Option<Vec<String>>,
    blacklist: Vec<String>,
}

/// The user may access: named as viewer, editor or owner; else not
/// blacklisted while viewing or editing is open to everyone.
pub open spec fn permitted(
    owners: Seq<Seq<char>>,
    editors: Option<Seq<Seq<char>>>,
    viewers: Option<Seq<Seq<char>>>,
    blacklist: Seq<Seq<char>>,
    user: Seq<char>,
) -> bool {
    let named = (viewers matches Some(v) && v.contains(user)) || (editors matches Some(e) && e.contains(user)) || owners.contains(user);
    named || (!blacklist.contains(user) && (viewers is None || editors is None))
}

impl BasicPermissionManager {
    pub closed spec fn owner_names(&self) -> Seq<Seq<char>> {
        names(self.owners@)
    }

    pub closed spec fn editor_names(&self) -> Option<Seq<Seq<char>>> {
        match self.editors {
            Some(e) => Some(names(e@)),
            None => None,
        }
    }

    pub closed spec fn viewer_names(&self) -> Option<Seq<Seq<char>>> {
        match self.viewers {
            Some(v) => Some(names(v@)),
            None => None,
        }
    }

    pub closed spec fn blacklist_names(&self) -> Seq<Seq<char>> {
        names(self.blacklist@)
    }

    /// The permission set with no owner, no editor, no one blacklisted, and
    /// viewing open to everyone.
    pub fn new() -> (r: Self)
        ensures
            r.owner_names() == Seq::<Seq<char>>::empty(),
            r.editor_names() == Some(Seq::<Seq<char>>::empty()),
            r.viewer_names() is None,
            r.blacklist_names() == Seq::<Seq<char>>::empty(),
    {
        let r = BasicPermissionManager { owners: Vec::new(), editors: Some(Vec::new()), viewers: None, blacklist: Vec::new() };
        assert(names(r.owners@) =~= Seq::<Seq<char>>::empty());
        assert(names(r.editors->0@) =~= Seq::<Seq<char>>::empty());
        assert(names(r.blacklist@) =~= Seq::<Seq<char>>::empty());
        r
    }

    /// The permission set of `new`, owned by `username`.
    pub fn new_with_owner(username: &str) -> (r: Self)
        ensures
            r.owner_names() == seq![username@],
            r.editor_names() == Some(Seq::<Seq<char>>::empty()),
            r.viewer_names() is None,
            r.blacklist_names() == Seq::<Seq<char>>::empty(),
    {
        let mut basic = Self::new();
        basic.owners.push(owned(username));
        assert(names(basic.owners@) =~= seq![username@]);
        basic
    }

    /// A permission set with the given lists.
    pub fn from_parts(owners: Vec<String>, editors: Option<Vec<String>>, viewers: Option<Vec<String>>, blacklist: Vec<String>) -> (r: Self)
        ensures
            r.owner_names() == names(owners@),
            r.editor_names() == (match editors { Some(e) => Some(names(e@)), None => None }),
            r.viewer_names() == (match viewers { Some(v) => Some(names(v@)), None => None }),
            r.blacklist_names() == names(blacklist@),
    {
        BasicPermissionManager { owners, editors, viewers, blacklist }
    }

    /// The lists of the permission set: owners, editors, viewers, blacklist.
    pub fn into_parts(self) -> (r: (Vec<String>, Option<Vec<String>>, Option<Vec<String>>, Vec<String>))
        ensures
            names(r.0@) == self.owner_names(),
            (match r.1 { Some(e) => Some(names(e@)), None => None }) == self.editor_names(),
            (match r.2 { Some(v) => Some(names(v@)), None => None }) == self.viewer_names(),
            names(r.3@) == self.blacklist_names(),
    {
        (self.owners, self.editors, self.viewers, self.blacklist)
    }

    /// Tells whether the user may access the set. Being named as viewer,
    /// editor or owner grants access; otherwise the blacklist denies it, and
    /// else access is granted when viewing or editing is open to everyone.
    pub fn has_permission(&mut self, username: &String) -> (r: bool)
        ensures
            *final(self) == *old(self),
            r == permitted(
                old(self).owner_names(),
                old(self).editor_names(),
                old(self).viewer_names(),
                old(self).blacklist_names(),
                username@,
            ),
    {
        let in_viewers = match &self.viewers {
            Some(v) => name_listed(v, username),
            None => false,
        };
        if in_viewers {
            return true;
        }
        let in_editors = match &self.editors {
            Some(e) => name_listed(e, username),
            None => false,
        };
        if in_editors {
            return true;
        }
        if name_listed(&self.owners, username) {
            return true;
        }
        if name_listed(&self.blacklist, username) {
            return false;
        } else if self.viewers.is_none() {
            return true;
        } else if self.editors.is_none() {
            return true;
        }
        false
    }
}

/// Law: specific permissions trump the blacklist, and the blacklist trumps
/// general permissions. A user named as owner, editor or viewer may access
/// the set, blacklisted or not; a blacklisted user named nowhere else may
/// not, even when viewing or editing is open to everyone; anyone else may
/// exactly when viewing or editing is open to everyone.
pub proof fn lemma_permission_priority(p: BasicPermissionManager, user: Seq<char>)
    ensures
        ({
            let named = (p.viewer_names() matches Some(v) && v.contains(user))
                || (p.editor_names() matches Some(e) && e.contains(user))
                || p.owner_names().contains(user);
            let allowed = permitted(p.owner_names(), p.editor_names(), p.viewer_names(), p.blacklist_names(), user);
            &&& named ==> allowed
            &&& (!named && p.blacklist_names().contains(user)) ==> !allowed
            &&& (!named && !p.blacklist_names().contains(user))
                ==> (allowed <==> (p.viewer_names() is None || p.editor_names() is None))
        }),
{
}

/// Tells whether the name is in the list.
fn name_listed(list: &Vec<String>, name: &String) -> (r: bool)
    ensures
        r == names(list@).contains(name@),
{
    let mut i: usize = 0;
    while i < list.len()
        invariant
            i <= list@.len(),
            forall|k: int| 0 <= k < i ==> (#[trigger] list@[k])@ != name@,
        decreases list@.len() - i,
    {
        if list[i] == *name {
            assert(names(list@)[i as int] == name@);
            return true;
        }
        i = i + 1;
    }
    proof {
        if names(list@).contains(name@) {
            let k = choose|k: int| 0 <= k < list@.len() && #[trigger] names(list@)[k] == name@;
            assert(list@[k]@ == name@);
        }
    }
    false
}

/// The text parses as a PHC password-hash string.
pub uninterp spec fn phc_parses(hash: Seq<char>) -> bool;

/// Argon2 with default parameters accepts the password for the PHC hash.
pub uninterp spec fn argon2_accepts(password: Seq<char>, hash: Seq<char>) -> bool;

/// Tells whether a stored hash is a well-formed PHC string.
///
/// Trusted: `argon2::PasswordHash::new`, a parser whose outcome depends on the
/// text alone; it is named `phc_parses`.
#[verifier::external_body]
pub(crate) fn parse_phc(hash: &str) -> (r: bool)
    ensures
        r == phc_parses(hash@),
{
    argon2::PasswordHash::new(hash).is_ok()
}

/// Checks a password against a stored hash.
///
/// Trusted: `argon2::PasswordVerifier::verify_password` of `Argon2::default()`
/// on the parsed hash. It recomputes the hash with the parameters and salt
/// stored in the hash, so the outcome depends on the two texts alone; it is
/// named `argon2_accepts`.
#[verifier::external_body]
pub(crate) fn argon2_verify(password: &str, hash: &str) -> (r: bool)
    requires
        phc_parses(hash@),
    ensures
        r == argon2_accepts(password@, hash@),
{
    match argon2::PasswordHash::new(hash) {
        Ok(parsed) => argon2::Argon2::default().verify_password(password.as_bytes(), &parsed).is_ok(),
        Err(_) => false,
    }
}

/// A symbol of B64, standard Base64 without padding: a letter, a digit,
/// `+` or `/`.
pub open spec fn is_b64_symbol(c: char) -> bool {
    ('A' <= c <= 'Z') || ('a' <= c <= 'z') || ('0' <= c <= '9') || c == '+' || c == '/'
}

/// `s` is the B64 text of 16 bytes: 22 symbols, the last of which carries
/// only the final two bits (its four low bits are zero).
pub open spec fn is_salt_text(s: Seq<char>) -> bool {
    &&& s.len() == 22
    &&& forall|i: int| 0 <= i < 22 ==> is_b64_symbol(#[trigger] s[i])
    &&& (s[21] == 'A' || s[21] == 'Q' || s[21] == 'g' || s[21] == 'w')
}

/// The longest password, in characters, that is sure to be hashed: at four
/// bytes a character at most, it stays within argon2's limit of 2^32 - 1
/// bytes.
pub const PASSWORD_CHAR_LIMIT: usize = 0x3FFF_FFFF;

/// How every hash of `argon2_hash` begins: the algorithm (Argon2id) and
/// the version (19) of the default `Argon2`, as the PHC string writes them.
pub open spec fn argon2id_prefix() -> Seq<char> {
    seq!['$', 'a', 'r', 'g', 'o', 'n', '2', 'i', 'd', '$', 'v', '=', '1', '9', '$']
}

/// `t` begins with the Argon2id PHC prefix.
pub open spec fn has_argon2id_prefix(t: Seq<char>) -> bool {
    t.len() >= 15 && t.subrange(0, 15) == argon2id_prefix()
}

/// A fresh random salt, as its B64 text.
///
/// Trusted: `SaltString::generate` with the operating system's random source
/// and `SaltString::as_str`. `generate` draws 16 random bytes and encodes
/// them in B64, which gives 22 symbols whose last one has its four low bits
/// zero; the bytes are random, so nothing more is stated.
#[verifier::external_body]
fn fresh_salt() -> (r: String)
    ensures
        is_salt_text(r@),
{
    argon2::password_hash::SaltString::generate(&mut rand::rngs::OsRng).as_str().to_string()
}

/// Hashes a password with Argon2 (default parameters) and the salt given as
/// B64 text, as a PHC string.
///
/// Trusted: `SaltString::from_b64`, `argon2::PasswordHasher::hash_password` of
/// `Argon2::default()` and the `Display` of the resulting `PasswordHash`. The
/// contract claims that a hash it returns parses back and accepts the same
/// password: verification recomputes the hash with the parameters and salt
/// written in the string. It claims that the text begins with
/// `$argon2id$v=19$`: `Display` writes `$`, the algorithm (`argon2id`, the
/// default), `$v=` and the version (19, the default), then `$` and the
/// parameters, which are never empty. It claims success for a salt that is the B64 text
/// of 16 bytes and a password of at most `PASSWORD_CHAR_LIMIT` characters:
/// the salt then passes `from_b64` (4 to 64 B64 symbols) and decodes to 16
/// bytes, within argon2's salt limits (8 to 2^32 - 1 bytes), the password is
/// within its limit of 2^32 - 1 bytes, and the default output length and
/// parameters are valid, which are all the errors its source returns.
#[verifier::external_body]
fn argon2_hash(password: &str, salt: &str) -> (r: Option<String>)
    ensures
        r matches Some(h) ==> phc_parses(h@) && argon2_accepts(password@, h@) && has_argon2id_prefix(h@),
        is_salt_text(salt@) && password@.len() <= PASSWORD_CHAR_LIMIT ==> r is Some,
{
    match argon2::password_hash::SaltString::from_b64(salt) {
        Ok(s) => match argon2::Argon2::default().hash_password(password.as_bytes(), &s) {
            Ok(h) => Some(h.to_string()),
            Err(_) => None,
        },
        Err(_) => None,
    }
}

/// Hashes a new password with a fresh salt. It succeeds for every password
/// of at most `PASSWORD_CHAR_LIMIT` characters; `None` when hashing fails.
pub fn hash_new_password(password: &str) -> (r: Option<String>)
    ensures
        r matches Some(h) ==> phc_parses(h@) && argon2_accepts(password@, h@) && has_argon2id_prefix(h@),
        password@.len() <= PASSWORD_CHAR_LIMIT ==> r is Some,
{
    let salt = fresh_salt();
    argon2_hash(password, salt.as_str())
}

/// The outcome of a password check on the rows found for a username: the
/// user must be unique; column 1 holds the hash, column 3 the user's record.
pub open spec fn password_outcome(rows: Seq<Seq<DbValue>>, password: Seq<char>) -> Result<(bool, Seq<char>), CoreDatatypeError> {
    if rows.len() == 1 {
        match rows[0][1] {
            DbValue::Text(h) => if !phc_parses(h@) {
                Err(CoreDatatypeError::PasswordHashIsError)
            } else if argon2_accepts(password, h@) {
                match rows[0][3] {
                    DbValue::Text(j) => Ok((true, j@)),
                    _ => Ok((true, Seq::empty())),
                }
            } else {
                Ok((false, Seq::empty()))
            },
            _ => Err(CoreDatatypeError::ValueNotText),
        }
    } else if rows.len() < 1 {
        Err(CoreDatatypeError::UserDoesNotExist)
    } else {
        Err(CoreDatatypeError::DuplicateUsername)
    }
}

/// The rows' views.
pub open spec fn row_views(rows: Seq<Vec<DbValue>>) -> Seq<Seq<DbValue>> {
    rows.map_values(|r: Vec<DbValue>| r@)
}

/// A password check with the result's text as a view.
pub open spec fn outcome_view(r: Result<(bool, String), CoreDatatypeError>) -> Result<(bool, Seq<char>), CoreDatatypeError> {
    match r {
        Ok((b, s)) => Ok((b, s@)),
        Err(e) => Err(e),
    }
}

/// Checks a password against the rows found for a username: whether it is
/// right and, when it is, the user's stored record. A row of the users table
/// has (at least) its four columns.
pub fn verify_password(rows: &Vec<Vec<DbValue>>, password: &str) -> (r: Result<(bool, String), CoreDatatypeError>)
    requires
        rows@.len() == 1 ==> rows@[0]@.len() >= 4,
    ensures
        outcome_view(r) == password_outcome(row_views(rows@), password@),
{
    if rows.len() == 1 {
        assert(row_views(rows@)[0] == rows@[0]@);
        match &rows[0][1] {
            DbValue::Text(h) => {
                if !parse_phc(h.as_str()) {
                    return Err(CoreDatatypeError::PasswordHashIsError);
                }
                if argon2_verify(password, h.as_str()) {
                    match &rows[0][3] {
                        DbValue::Text(j) => Ok((true, j.clone())),
                        _ => Ok((true, String::new())),
                    }
                } else {
                    Ok((false, String::new()))
                }
            },
            _ => Err(CoreDatatypeError::ValueNotText),
        }
    } else if rows.len() < 1 {
        Err(CoreDatatypeError::UserDoesNotExist)
    } else {
        Err(CoreDatatypeError::DuplicateUsername)
    }
}

/// The text in column `col` of the only row found for a record id.
pub open spec fn unique_text_outcome(rows: Seq<Seq<DbValue>>, col: int) -> Result<Seq<char>, CoreDatatypeError> {
    if rows.len() == 1 {
        match rows[0][col] {
            DbValue::Text(t) => Ok(t@),
            _ => Err(CoreDatatypeError::ValueNotText),
        }
    } else if rows.len() == 0 {
        Err(CoreDatatypeError::DoesNotExist)
    } else {
        Err(CoreDatatypeError::DuplicateEntries)
    }
}

/// A text result with the text as a view.
pub open spec fn text_result_view(r: Result<String, CoreDatatypeError>) -> Result<Seq<char>, CoreDatatypeError> {
    match r {
        Ok(s) => Ok(s@),
        Err(e) => Err(e),
    }
}

/// The text in column `col` of the only row; an error when there is no row
/// or more than one, or when the value is not text.
fn unique_text(rows: &Vec<Vec<DbValue>>, col: usize) -> (r: Result<String, CoreDatatypeError>)
    requires
        rows@.len() == 1 ==> col < rows@[0]@.len(),
    ensures
        text_result_view(r) == unique_text_outcome(row_views(rows@), col as int),
{
    if rows.len() == 1 {
        assert(row_views(rows@)[0] == rows@[0]@);
        match &rows[0][col] {
            DbValue::Text(t) => Ok(t.clone()),
            _ => Err(CoreDatatypeError::ValueNotText),
        }
    } else if rows.len() == 0 {
        Err(CoreDatatypeError::DoesNotExist)
    } else {
        Err(CoreDatatypeError::DuplicateEntries)
    }
}

/// The column of a note-card row that holds the permissions as JSON.
pub const NOTECARD_PERMISSIONS_COLUMN: usize = 3;

/// The column of a note-card row that holds the set's raw JSON.
pub const NOTECARD_RAWJSON_COLUMN: usize = 4;

/// The row that storing a note-card set writes: USERNAME, ID, NAME,
/// PERMISSIONS_JSON, RAWJSON and VERSION (1).
pub open spec fn note_card_row_spec(
    username: Seq<char>,
    id: Seq<char>,
    name: Seq<char>,
    permissions: Seq<char>,
    rawjson: Seq<char>,
    row: Seq<DbValue>,
) -> bool {
    &&& row.len() == 6
    &&& row[0] matches DbValue::Text(t) && t@ == username
    &&& row[1] matches DbValue::Text(t) && t@ == id
    &&& row[2] matches DbValue::Text(t) && t@ == name
    &&& row[3] matches DbValue::Text(t) && t@ == permissions
    &&& row[4] matches DbValue::Text(t) && t@ == rawjson
    &&& row[5] == DbValue::Integer(1)
}

/// The values of the row that stores a note-card set, in column order.
pub fn note_card_row(username: String, id: String, name: String, permissions: String, rawjson: String) -> (r: Vec<DbValue>)
    ensures
        note_card_row_spec(username@, id@, name@, permissions@, rawjson@, r@),
{
    vec![
        DbValue::Text(username),
        DbValue::Text(id),
        DbValue::Text(name),
        DbValue::Text(permissions),
        DbValue::Text(rawjson),
        DbValue::Integer(1),
    ]
}

/// Law: fetching a note card whose only row is the one storing wrote gives
/// back the raw JSON that was stored, and the permission query gives back
/// the stored permissions.
pub proof fn lemma_fetch_returns_stored_note_card(
    username: Seq<char>,
    id: Seq<char>,
    name: Seq<char>,
    permissions: Seq<char>,
    rawjson: Seq<char>,
    row: Seq<DbValue>,
)
    requires
        note_card_row_spec(username, id, name, permissions, rawjson, row),
    ensures
        unique_text_outcome(seq![row], NOTECARD_RAWJSON_COLUMN as int) == Ok::<Seq<char>, CoreDatatypeError>(rawjson),
        unique_text_outcome(seq![row], NOTECARD_PERMISSIONS_COLUMN as int) == Ok::<Seq<char>, CoreDatatypeError>(permissions),
{
}

/// The raw JSON of a note card: the RAWJSON column (the fifth) of the only
/// row with its id, where storing a set writes it.
pub fn fetch_note_card(rows: &Vec<Vec<DbValue>>) -> (r: Result<String, CoreDatatypeError>)
    requires
        rows@.len() == 1 ==> rows@[0]@.len() >= 5,
    ensures
        text_result_view(r) == unique_text_outcome(row_views(rows@), NOTECARD_RAWJSON_COLUMN as int),
{
    unique_text(rows, NOTECARD_RAWJSON_COLUMN)
}

/// The permission text of a note card: the PERMISSIONS_JSON column (the
/// fourth) of the only row with its id; the caller parses it.
pub fn notecard_permissions_text(rows: &Vec<Vec<DbValue>>) -> (r: Result<String, CoreDatatypeError>)
    requires
        rows@.len() == 1 ==> rows@[0]@.len() >= 4,
    ensures
        text_result_view(r) == unique_text_outcome(row_views(rows@), NOTECARD_PERMISSIONS_COLUMN as int),
{
    unique_text(rows, NOTECARD_PERMISSIONS_COLUMN)
}

/// The record a deletion reads: column 0 of the first row; an error when
/// there is no row or no value, or when the value is not text.
pub fn deletion_record_text(rows: &Vec<Vec<DbValue>>) -> (r: Result<String, CoreDatatypeError>)
    ensures
        rows@.len() > 0 && rows@[0]@.len() > 0 ==> match rows@[0]@[0] {
            DbValue::Text(t) => r matches Ok(s) && s@ == t@,
            _ => r == Err::<String, CoreDatatypeError>(CoreDatatypeError::ValueNotText),
        },
        !(rows@.len() > 0 && rows@[0]@.len() > 0) ==> r == Err::<String, CoreDatatypeError>(CoreDatatypeError::ArrayLenIsZero),
{
    if rows.len() > 0 && rows[0].len() > 0 {
        match &rows[0][0] {
            DbValue::Text(t) => Ok(t.clone()),
            _ => Err(CoreDatatypeError::ValueNotText),
        }
    } else {
        Err(CoreDatatypeError::ArrayLenIsZero)
    }
}

/// A stored user: name, password hash, ips, id and flags.
pub struct User {
    pub username: String,
    pub password: String,
    pub most_recent_ip: String,
    pub ips: Vec<String>,
    pub unique_id: String,
    pub is_banned: bool,
    pub deleted: bool,
    /// The ids of the note-card sets the user uploaded.
    pub uploaded_sets: Vec<String>,
}

/// `s` is a record id: the JSON text of a UUID text.
pub open spec fn is_record_id(s: Seq<char>) -> bool {
    exists|u: Seq<char>| is_uuid_text(u) && #[trigger] json_string(u) == s
}

/// A new random record id: the JSON text of a time-ordered UUID; a random
/// 16-character token should that text not be written.
pub fn generate_random_id() -> (r: String)
    ensures
        is_record_id(r@),
{
    let id = time_ordered_uuid_text();
    match json_quote(id.as_str()) {
        Some(q) => q,
        None => random_token(16),
    }
}

impl User {
    /// A new user with the given name, password hash and ip: the ip is its
    /// only known ip, it gets a fresh id, and it is neither banned nor
    /// deleted.
    pub fn new(username: String, password: String, recent_ip: String) -> (r: Self)
        ensures
            r.username == username,
            r.password == password,
            r.most_recent_ip == recent_ip,
            r.ips@.len() == 1,
            r.ips@[0] == recent_ip,
            is_record_id(r.unique_id@),
            !r.is_banned,
            !r.deleted,
            r.uploaded_sets@.len() == 0,
    {
        let mut ips: Vec<String> = Vec::new();
        ips.push(recent_ip.clone());
        User {
            username,
            password,
            most_recent_ip: recent_ip,
            ips,
            unique_id: generate_random_id(),
            is_banned: false,
            deleted: false,
            uploaded_sets: Vec::new(),
        }
    }

    /// The same user, marked deleted.
    pub fn mark_deleted(self) -> (r: Self)
        ensures
            r.deleted,
            r.username == self.username,
            r.password == self.password,
            r.most_recent_ip == self.most_recent_ip,
            r.ips == self.ips,
            r.unique_id == self.unique_id,
            r.is_banned == self.is_banned,
            r.uploaded_sets == self.uploaded_sets,
    {
        let mut u = self;
        u.deleted = true;
        u
    }
}

/// Prepares the registration of a user once the rows with the same username
/// are counted: a taken username is refused; otherwise the password is
/// hashed with a fresh salt and the new user holds the hash.
pub fn register_user(existing_rows: usize, username: String, password: &str, ip: String) -> (r: Result<User, CoreDatatypeError>)
    ensures
        existing_rows > 0 ==> r == Err::<User, CoreDatatypeError>(CoreDatatypeError::DuplicateUsername),
        existing_rows == 0 ==> (r is Ok || r == Err::<User, CoreDatatypeError>(CoreDatatypeError::PasswordHashIsError)),
        existing_rows == 0 && password@.len() <= PASSWORD_CHAR_LIMIT ==> r is Ok,
        r matches Ok(u) ==> {
            &&& u.username == username
            &&& u.most_recent_ip == ip
            &&& phc_parses(u.password@)
            &&& argon2_accepts(password@, u.password@)
            &&& !u.is_banned && !u.deleted
        },
{
    if existing_rows > 0 {
        return Err(CoreDatatypeError::DuplicateUsername);
    }
    match hash_new_password(password) {
        Some(hash) => Ok(User::new(username, hash, ip)),
        None => Err(CoreDatatypeError::PasswordHashIsError),
    }
}

/// The row that registering an account stores in the users table: the email
/// (as username and as email), the hash of the password with a fresh salt,
/// and no recent ips; `Err` when hashing fails, which it does not for a
/// password of at most `PASSWORD_CHAR_LIMIT` characters. The password itself is not
/// stored: the third column holds a hash that verifies it and begins with
/// `$argon2id$v=19$`, so it differs from every password that does not.
pub fn user_info_row(email: &str, password: &str) -> (r: Result<Vec<DbValue>, ()>)
    ensures
        password@.len() <= PASSWORD_CHAR_LIMIT ==> r is Ok,
        r matches Ok(row) ==> {
            &&& row@.len() == 4
            &&& row@[0] matches DbValue::Text(t) && t@ == email@
            &&& row@[1] matches DbValue::Text(t) && t@ == email@
            &&& row@[2] matches DbValue::Text(h) && phc_parses(h@) && argon2_accepts(password@, h@)
                && has_argon2id_prefix(h@) && (!has_argon2id_prefix(password@) ==> h@ != password@)
            &&& row@[3] matches DbValue::Text(t) && t@ == Seq::<char>::empty()
        },
{
    match hash_new_password(password) {
        Some(hash) => Ok(vec![DbValue::Text(owned(email)), DbValue::Text(owned(email)), DbValue::Text(hash), DbValue::Text(String::new())]),
        None => Err(()),
    }
}

/// Law: a password that was registered is accepted when it is verified
/// against the row that stores the user, which yields the stored record.
pub proof fn lemma_registered_password_verifies(hash: String, record: String, other: Seq<DbValue>, password: Seq<char>)
    requires
        phc_parses(hash@),
        argon2_accepts(password, hash@),
        other.len() >= 4,
        other[1] == DbValue::Text(hash),
        other[3] == DbValue::Text(record),
    ensures
        password_outcome(seq![other], password) == Ok::<(bool, Seq<char>), CoreDatatypeError>((true, record@)),
{
}

/// The id under which a user's note-card set is stored: the username followed
/// by a random UUID text.
pub fn notecard_record_id(username: &str) -> (r: String)
    ensures
        r@.len() == username@.len() + 36,
        r@.subrange(0, username@.len() as int) == username@,
        is_uuid_v4_text(r@.subrange(username@.len() as int, r@.len() as int)),
{
    let mut id = owned(username);
    let u = random_uuid_text();
    id.append(u.as_str());
    proof {
        assert(id@.subrange(0, username@.len() as int) =~= username@);
        assert(id@.subrange(username@.len() as int, id@.len() as int) =~= u@);
    }
    id
}

/// The compressed form of note-card data: `zstd::stream::encode_all` on the
/// bytes at the given level, where it succeeds.
pub uninterp spec fn zstd_encoded(bytes: Seq<u8>, level: i32) -> Option<Seq<u8>>;

/// Compresses bytes with zstd.
///
/// Trusted: `zstd::stream::encode_all`, whose output depends on the bytes and
/// the level alone; it is named `zstd_encoded`.
#[verifier::external_body]
fn zstd_encode(bytes: &[u8], level: i32) -> (r: Option<Vec<u8>>)
    ensures
        r is Some <==> zstd_encoded(bytes@, level) is Some,
        r matches Some(v) ==> zstd_encoded(bytes@, level) == Some(v@),
{
    zstd::stream::encode_all(bytes, level).ok()
}

/// The stored body of a note-card set: its JSON text compressed with zstd at
/// the default level.
pub fn compress_notecards(json: &str) -> (r: Result<Vec<u8>, ()>)
    ensures
        match zstd_encoded(json.spec_bytes(), 0) {
            Some(b) => r matches Ok(v) && v@ == b,
            None => r is Err,
        },
{
    match zstd_encode(json.as_bytes(), 0) {
        Some(v) => Ok(v),
        None => Err(()),
    }
}

/// How a request for a set by id is answered.
pub enum NoteCardAccess {
    /// The permissions could not be read, or the set could not be fetched.
    ServerError,
    /// The user may not see the set.
    Forbidden,
    /// The user may see the set: fetch it.
    Allowed,
}

/// Decides a request for a set from its permissions as read from the
/// database (`None` when they could not be read) and the user asking.
pub fn note_card_access(perms: Option<BasicPermissionManager>, username: &String) -> (r: NoteCardAccess)
    ensures
        perms is None ==> r is ServerError,
        perms matches Some(p) ==> (r is Allowed <==> permitted(p.owner_names(), p.editor_names(), p.viewer_names(), p.blacklist_names(), username@)),
        perms matches Some(p) ==> !(r is ServerError),
{
    match perms {
        None => NoteCardAccess::ServerError,
        Some(mut p) => {
            if p.has_permission(username) {
                NoteCardAccess::Allowed
            } else {
                NoteCardAccess::Forbidden
            }
        },
    }
}

} // verus!
