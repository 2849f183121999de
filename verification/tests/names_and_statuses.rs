use backend::item::QuantityType;
use backend::outcome::Outcome;
use backend::status::{database_error_to_status, status_for_db_error, status_for_update_error, DbErrorKind, Status};
use backend::user::{NewUser, User, UserRole};

use std::fmt;

#[test]
fn quantity_types_have_their_stored_names() {
    assert_eq!(QuantityType::Count.as_str(), "count");
    assert_eq!(QuantityType::Grams.as_str(), "grams");
    assert_eq!(QuantityType::Ounces.as_str(), "ounces");
    assert_eq!(QuantityType::Pounds.as_str(), "pounds");
    assert_eq!(QuantityType::Liters.as_str(), "liters");
    assert_eq!(QuantityType::Milliliters.as_str(), "milliliters");
    assert_eq!(QuantityType::Gallons.as_str(), "gallons");
}

#[test]
fn quantity_type_names_are_distinct() {
    let all = [
        QuantityType::Count,
        QuantityType::Grams,
        QuantityType::Ounces,
        QuantityType::Pounds,
        QuantityType::Liters,
        QuantityType::Milliliters,
        QuantityType::Gallons,
    ];
    for a in all.iter() {
        for b in all.iter() {
            assert_eq!(a.as_str() == b.as_str(), a == b);
        }
    }
}

#[test]
fn user_roles_have_their_stored_names() {
    assert_eq!(UserRole::Member.as_str(), "member");
    assert_eq!(UserRole::Admin.as_str(), "admin");
    assert_ne!(UserRole::Member.as_str(), UserRole::Admin.as_str());
}

#[test]
fn users_hold_their_fields() {
    let user = User { id: "3".to_owned(), name: "Alex".to_owned(), role: UserRole::Member };
    assert_eq!(user.id, "3");
    assert_eq!(user.name, "Alex");
    assert_eq!(user.role.as_str(), "member");
    let new_user = NewUser { name: "Blair".to_owned(), role: UserRole::Admin };
    assert_eq!(new_user.name, "Blair");
    assert_eq!(new_user.role, UserRole::Admin);
}

#[test]
fn statuses_have_their_codes() {
    assert_eq!(Status::Success.code(), 200);
    assert_eq!(Status::Created.code(), 201);
    assert_eq!(Status::NoContent.code(), 204);
    assert_eq!(Status::BadRequest.code(), 400);
    assert_eq!(Status::NotFound.code(), 404);
    assert_eq!(Status::Conflict.code(), 409);
    assert_eq!(Status::InternalServerError.code(), 500);
}

#[test]
fn only_success_statuses_are_successes() {
    assert!(Status::Success.is_success());
    assert!(Status::Created.is_success());
    assert!(Status::NoContent.is_success());
    assert!(!Status::BadRequest.is_success());
    assert!(!Status::NotFound.is_success());
    assert!(!Status::Conflict.is_success());
    assert!(!Status::InternalServerError.is_success());
}

#[test]
fn insert_failures_map_to_statuses() {
    assert_eq!(status_for_db_error(DbErrorKind::UniqueViolation), Status::Conflict);
    assert_eq!(status_for_db_error(DbErrorKind::OtherDatabase), Status::BadRequest);
    assert_eq!(status_for_db_error(DbErrorKind::Other), Status::InternalServerError);
}

#[test]
fn update_failures_map_to_statuses() {
    assert_eq!(status_for_update_error(DbErrorKind::UniqueViolation), Status::BadRequest);
    assert_eq!(status_for_update_error(DbErrorKind::OtherDatabase), Status::BadRequest);
    assert_eq!(status_for_update_error(DbErrorKind::Other), Status::InternalServerError);
}

#[derive(Debug)]
struct FakeDatabaseError {
    kind: sqlx::error::ErrorKind,
}

impl fmt::Display for FakeDatabaseError {
    fn fmt(&self, f: &mut fmt::Formatter<'_>) -> fmt::Result {
        f.write_str("fake database error")
    }
}

impl std::error::Error for FakeDatabaseError {}

impl sqlx::error::DatabaseError for FakeDatabaseError {
    fn message(&self) -> &str {
        "fake database error"
    }

    fn as_error(&self) -> &(dyn std::error::Error + Send + Sync + 'static) {
        self
    }

    fn as_error_mut(&mut self) -> &mut (dyn std::error::Error + Send + Sync + 'static) {
        self
    }

    fn into_error(self: Box<Self>) -> Box<dyn std::error::Error + Send + Sync + 'static> {
        self
    }

    fn kind(&self) -> sqlx::error::ErrorKind {
        match self.kind {
            sqlx::error::ErrorKind::UniqueViolation => sqlx::error::ErrorKind::UniqueViolation,
            sqlx::error::ErrorKind::ForeignKeyViolation => sqlx::error::ErrorKind::ForeignKeyViolation,
            _ => sqlx::error::ErrorKind::Other,
        }
    }
}

fn database_error(kind: sqlx::error::ErrorKind) -> sqlx::Error {
    sqlx::Error::Database(Box::new(FakeDatabaseError { kind }))
}

#[test]
fn unique_violation_is_a_conflict() {
    let error = database_error(sqlx::error::ErrorKind::UniqueViolation);
    assert_eq!(database_error_to_status(error), Status::Conflict);
    let error = database_error(sqlx::error::ErrorKind::UniqueViolation);
    assert_eq!(Outcome::failure(&error), Outcome::Failed(DbErrorKind::UniqueViolation));
}

#[test]
fn other_database_refusal_is_a_bad_request() {
    let error = database_error(sqlx::error::ErrorKind::ForeignKeyViolation);
    assert_eq!(database_error_to_status(error), Status::BadRequest);
    let error = database_error(sqlx::error::ErrorKind::ForeignKeyViolation);
    assert_eq!(Outcome::failure(&error), Outcome::Failed(DbErrorKind::OtherDatabase));
}

#[test]
fn driver_failure_is_an_internal_error() {
    assert_eq!(database_error_to_status(sqlx::Error::RowNotFound), Status::InternalServerError);
    assert_eq!(database_error_to_status(sqlx::Error::PoolTimedOut), Status::InternalServerError);
    assert_eq!(
        Outcome::failure(&sqlx::Error::Protocol("bad".to_owned())),
        Outcome::Failed(DbErrorKind::Other)
    );
}
