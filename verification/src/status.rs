use vstd::prelude::*;

verus! {

/// The HTTP statuses that the request handlers answer with.
#[derive(Debug, Clone, Copy, PartialEq, Eq, Structural)]
pub enum Status {
    /// 200 OK.
    Success,
    Created,
    NoContent,
    BadRequest,
    NotFound,
    Conflict,
    InternalServerError,
}

/// The numeric HTTP code of a status.
pub open spec fn status_code(s: Status) -> u16 {
    match s {
        Status::Success => 200,
        Status::Created => 201,
        Status::NoContent => 204,
        Status::BadRequest => 400,
        Status::NotFound => 404,
        Status::Conflict => 409,
        Status::InternalServerError => 500,
    }
}

/// A status that reports that the request was carried out.
pub open spec fn is_success(s: Status) -> bool {
    s == Status::Success || s == Status::Created || s == Status::NoContent
}

impl Status {
    /// Whether this status reports that the request was carried out.
    pub fn is_success(&self) -> (b: bool)
        ensures
            b == is_success(*self),
    {
        match self {
            Status::Success | Status::Created | Status::NoContent => true,
            _ => false,
        }
    }

    /// The numeric HTTP code of this status.
    pub fn code(&self) -> (code: u16)
        ensures
            code == status_code(*self),
    {
        match self {
            Status::Success => 200,
            Status::Created => 201,
            Status::NoContent => 204,
            Status::BadRequest => 400,
            Status::NotFound => 404,
            Status::Conflict => 409,
            Status::InternalServerError => 500,
        }
    }
}

/// What a failed database call reported, as far as the handlers look at it.
#[derive(Debug, Clone, Copy, PartialEq, Eq, Structural)]
pub enum DbErrorKind {
    /// The database refused a write that would break a unique constraint.
    UniqueViolation,
    /// The database refused the statement for another reason.
    OtherDatabase,
    /// The failure did not come from the database itself (connection, decoding, ...).
    Other,
}

/// The status with which a refused insert is answered.
pub open spec fn insert_failure_status(kind: DbErrorKind) -> Status {
    match kind {
        DbErrorKind::UniqueViolation => Status::Conflict,
        DbErrorKind::OtherDatabase => Status::BadRequest,
        DbErrorKind::Other => Status::InternalServerError,
    }
}

/// The status with which a refused update is answered: every refusal by the
/// database itself is the client's fault.
pub open spec fn update_failure_status(kind: DbErrorKind) -> Status {
    match kind {
        DbErrorKind::Other => Status::InternalServerError,
        _ => Status::BadRequest,
    }
}

/// Maps a database failure of an insert to the status the client receives.
pub fn status_for_db_error(kind: DbErrorKind) -> (status: Status)
    ensures
        status == insert_failure_status(kind),
{
    match kind {
        DbErrorKind::UniqueViolation => Status::Conflict,
        DbErrorKind::OtherDatabase => Status::BadRequest,
        DbErrorKind::Other => Status::InternalServerError,
    }
}

/// Maps a database failure of an update to the status the client receives.
pub fn status_for_update_error(kind: DbErrorKind) -> (status: Status)
    ensures
        status == update_failure_status(kind),
{
    match kind {
        DbErrorKind::Other => Status::InternalServerError,
        _ => Status::BadRequest,
    }
}

#[verifier::external_type_specification]
#[verifier::external_body]
pub struct ExSqlxError(sqlx::Error);

/// The kind of a driver error, as `classify_sqlx_error` reads it: it depends
/// on the error value alone (its variant and, for a database error, the kind
/// that the driver derives from the database's error code).
pub uninterp spec fn sqlx_error_kind(e: sqlx::Error) -> DbErrorKind;

/// Tells apart the kinds of `sqlx::Error` that the handlers answer differently:
/// `sqlx::Error::Database` whose `DatabaseError::is_unique_violation` holds,
/// other `sqlx::Error::Database` values, and every other variant. The
/// contract claims only that the kind is the one named `sqlx_error_kind` of
/// the error; which error values fall in which kind is not stated.
#[verifier::external_body]
pub(crate) fn classify_sqlx_error(error: &sqlx::Error) -> (kind: DbErrorKind)
    ensures
        kind == sqlx_error_kind(*error),
{
    match error {
        sqlx::Error::Database(database_error) if database_error.is_unique_violation() => {
            DbErrorKind::UniqueViolation
        },
        sqlx::Error::Database(_) => DbErrorKind::OtherDatabase,
        _ => DbErrorKind::Other,
    }
}

/// The status with which a failed insert is answered: a unique violation is a
/// conflict, any other refusal by the database a bad request, and every
/// other failure an internal error.
pub fn database_error_to_status(error: sqlx::Error) -> (status: Status)
    ensures
        status == insert_failure_status(sqlx_error_kind(error)),
{
    let kind = classify_sqlx_error(&error);
    status_for_db_error(kind)
}

} // verus!
