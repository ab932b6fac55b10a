use vstd::prelude::*;
use vstd::string::*;

use crate::parse::int_text;

verus! {

/// Errors raised by the grid store and its services.
#[derive(Debug, Clone, PartialEq, Eq)]
pub enum AppError {
    /// A referenced entity does not exist.
    NotFound { entity: String, id: i64 },
    /// A field value is malformed or refers to a missing entity.
    ValidationError { field: String, message: String },
    /// A natural key is already taken.
    ConstraintViolation { constraint: String },
    /// A business rule was broken.
    BusinessLogic { message: String },
    /// A value left the range that the store can hold.
    ResourceUnavailable { message: String },
    /// Stored grid addresses disagree with the grid's arithmetic.
    DataCorruption { message: String },
}

pub type AppResult<T> = Result<T, AppError>;

/// Message `m` names the integer `id`: it holds `id` written in decimal.
pub open spec fn names_id(m: Seq<char>, id: i64) -> bool {
    exists|a: Seq<char>, t: Seq<char>, b: Seq<char>| m == a + t + b && int_text(t) == Some(id as int)
}

/// Relies on `i64::to_string` (std's `Display` for integers): the decimal
/// form of `v`, with a leading `-` when negative.
#[verifier::external_body]
fn decimal_of(v: i64) -> (r: String)
    ensures
        int_text(r@) == Some(v as int),
{
    v.to_string()
}

impl AppError {
    /// Entity `entity` with id `id` does not exist.
    pub fn not_found(entity: &str, id: i64) -> (r: AppError)
        ensures
            r matches AppError::NotFound { id: i, .. } && i == id,
    {
        AppError::NotFound { entity: entity.to_owned(), id }
    }

    /// The care product `id` that a day entry refers to does not exist.
    pub fn unknown_care(id: i64) -> (r: AppError)
        ensures
            r matches AppError::ValidationError { message, .. } && names_id(message@, id),
    {
        let mut message = String::from_str("Le soin avec l'ID ");
        let t = decimal_of(id);
        message.append(t.as_str());
        message.append(" n'existe pas");
        let ghost a = "Le soin avec l'ID "@;
        let ghost b = " n'existe pas"@;
        assert(message@ == a + t@ + b);
        AppError::ValidationError { field: "soins_id".to_owned(), message }
    }

    /// Field `field` holds a value that is refused.
    pub fn validation_error(field: &str, message: &str) -> (r: AppError)
        ensures
            r is ValidationError,
    {
        AppError::ValidationError { field: field.to_owned(), message: message.to_owned() }
    }

    /// A business rule was broken.
    pub fn business_logic(message: &str) -> (r: AppError)
        ensures
            r is BusinessLogic,
    {
        AppError::BusinessLogic { message: message.to_owned() }
    }

    /// A natural key is already taken.
    pub fn constraint_violation(constraint: &str) -> (r: AppError)
        ensures
            r is ConstraintViolation,
    {
        AppError::ConstraintViolation { constraint: constraint.to_owned() }
    }

    /// A value or an id left the range that the store can hold.
    pub fn out_of_range(message: &str) -> (r: AppError)
        ensures
            r is ResourceUnavailable,
    {
        AppError::ResourceUnavailable { message: message.to_owned() }
    }

    /// Stored addresses disagree with the grid's arithmetic.
    pub fn data_corruption(message: &str) -> (r: AppError)
        ensures
            r is DataCorruption,
    {
        AppError::DataCorruption { message: message.to_owned() }
    }

    /// The message shown to a user: the entity for a missing one, else the
    /// text that the error carries.
    pub fn message(&self) -> (r: String)
        ensures
            match self {
                AppError::NotFound { entity, .. } => r == entity,
                AppError::ValidationError { message, .. } => r == message,
                AppError::ConstraintViolation { constraint } => r == constraint,
                AppError::BusinessLogic { message } => r == message,
                AppError::ResourceUnavailable { message } => r == message,
                AppError::DataCorruption { message } => r == message,
            },
    {
        match self {
            AppError::NotFound { entity, .. } => entity.clone(),
            AppError::ValidationError { message, .. } => message.clone(),
            AppError::ConstraintViolation { constraint } => constraint.clone(),
            AppError::BusinessLogic { message } => message.clone(),
            AppError::ResourceUnavailable { message } => message.clone(),
            AppError::DataCorruption { message } => message.clone(),
        }
    }
}

} // verus!
