use vstd::prelude::*;

verus! {

/// The error kinds of the broker, each with its HTTP status.
#[derive(Debug, Clone, PartialEq, Eq)]
pub enum AppError {
    AuthenticationError(String),
    AuthorizationError(String),
    ChannelError(String),
    ConnectionError(String),
    ApplicationNotFound(String),
    ChannelNotFound(String),
    BadRequest(String),
    InternalServerError(String),
    SerializationError(String),
    IoError(String),
    NotFound(String),
}

pub open spec fn status_of(e: AppError) -> u16 {
    match e {
        AppError::AuthenticationError(_) => 401,
        AppError::AuthorizationError(_) => 403,
        AppError::ChannelError(_) => 400,
        AppError::ConnectionError(_) => 400,
        AppError::ApplicationNotFound(_) => 404,
        AppError::ChannelNotFound(_) => 404,
        AppError::BadRequest(_) => 400,
        AppError::InternalServerError(_) => 500,
        AppError::SerializationError(_) => 500,
        AppError::IoError(_) => 500,
        AppError::NotFound(_) => 404,
    }
}

/// The short name of each error kind.
pub open spec fn kind_text(e: AppError) -> Seq<char> {
    match e {
        AppError::AuthenticationError(_) => "Authentication failed"@,
        AppError::AuthorizationError(_) => "Authorization failed"@,
        AppError::ChannelError(_) => "Channel error"@,
        AppError::ConnectionError(_) => "Connection error"@,
        AppError::ApplicationNotFound(_) => "Application not found"@,
        AppError::ChannelNotFound(_) => "Channel not found"@,
        AppError::BadRequest(_) => "Invalid input"@,
        AppError::InternalServerError(_) => "Internal server error"@,
        AppError::SerializationError(_) => "Serialization error"@,
        AppError::IoError(_) => "I/O error"@,
        AppError::NotFound(_) => "Not found"@,
    }
}

impl AppError {
    /// The HTTP status an error maps to.
    pub fn status_code(&self) -> (r: u16)
        ensures
            r == status_of(*self),
    {
        match self {
            AppError::AuthenticationError(_) => 401,
            AppError::AuthorizationError(_) => 403,
            AppError::ChannelError(_) => 400,
            AppError::ConnectionError(_) => 400,
            AppError::ApplicationNotFound(_) => 404,
            AppError::ChannelNotFound(_) => 404,
            AppError::BadRequest(_) => 400,
            AppError::InternalServerError(_) => 500,
            AppError::SerializationError(_) => 500,
            AppError::IoError(_) => 500,
            AppError::NotFound(_) => 404,
        }
    }

    /// The short name of the error kind, as shown in the `error` field of
    /// an HTTP error body.
    pub fn kind(&self) -> (r: &'static str)
        ensures
            r@ == kind_text(*self),
    {
        match self {
            AppError::AuthenticationError(_) => "Authentication failed",
            AppError::AuthorizationError(_) => "Authorization failed",
            AppError::ChannelError(_) => "Channel error",
            AppError::ConnectionError(_) => "Connection error",
            AppError::ApplicationNotFound(_) => "Application not found",
            AppError::ChannelNotFound(_) => "Channel not found",
            AppError::BadRequest(_) => "Invalid input",
            AppError::InternalServerError(_) => "Internal server error",
            AppError::SerializationError(_) => "Serialization error",
            AppError::IoError(_) => "I/O error",
            AppError::NotFound(_) => "Not found",
        }
    }

    /// The detail carried by the error.
    pub fn message(&self) -> (r: &str)
        ensures
            r@ == match *self {
                AppError::AuthenticationError(m) => m@,
                AppError::AuthorizationError(m) => m@,
                AppError::ChannelError(m) => m@,
                AppError::ConnectionError(m) => m@,
                AppError::ApplicationNotFound(m) => m@,
                AppError::ChannelNotFound(m) => m@,
                AppError::BadRequest(m) => m@,
                AppError::InternalServerError(m) => m@,
                AppError::SerializationError(m) => m@,
                AppError::IoError(m) => m@,
                AppError::NotFound(m) => m@,
            },
    {
        match self {
            AppError::AuthenticationError(m) => m.as_str(),
            AppError::AuthorizationError(m) => m.as_str(),
            AppError::ChannelError(m) => m.as_str(),
            AppError::ConnectionError(m) => m.as_str(),
            AppError::ApplicationNotFound(m) => m.as_str(),
            AppError::ChannelNotFound(m) => m.as_str(),
            AppError::BadRequest(m) => m.as_str(),
            AppError::InternalServerError(m) => m.as_str(),
            AppError::SerializationError(m) => m.as_str(),
            AppError::IoError(m) => m.as_str(),
            AppError::NotFound(m) => m.as_str(),
        }
    }
}

} // verus!
