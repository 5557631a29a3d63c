//! The error type shared by every operation of the library.
use vstd::prelude::*;

use crate::text::{contains, has_match, join2};

verus! {

/// An error with its category and a human-readable message.
///
/// Errors raised by storage, file or JSON layers carry the text of the
/// underlying error.
#[derive(Debug, Clone, PartialEq, Eq)]
pub enum AppError {
    Database(String),
    Io(String),
    Json(String),
    Certificate(String),
    Nginx(String),
    Config(String),
    Conflict(String),
    NotFound(String),
    Validation(String),
    Dns(String),
    Acme(String),
}

/// The message carried by an error.
pub open spec fn message_of(e: AppError) -> Seq<char> {
    match e {
        AppError::Database(m) => m@,
        AppError::Io(m) => m@,
        AppError::Json(m) => m@,
        AppError::Certificate(m) => m@,
        AppError::Nginx(m) => m@,
        AppError::Config(m) => m@,
        AppError::Conflict(m) => m@,
        AppError::NotFound(m) => m@,
        AppError::Validation(m) => m@,
        AppError::Dns(m) => m@,
        AppError::Acme(m) => m@,
    }
}

/// The category of an error, without its message.
#[derive(Debug, Clone, Copy, PartialEq, Eq)]
pub enum ErrorKind {
    Database,
    Io,
    Json,
    Certificate,
    Nginx,
    Config,
    Conflict,
    NotFound,
    Validation,
    Dns,
    Acme,
}

/// The category of an error.
pub open spec fn kind_of(e: AppError) -> ErrorKind {
    match e {
        AppError::Database(_) => ErrorKind::Database,
        AppError::Io(_) => ErrorKind::Io,
        AppError::Json(_) => ErrorKind::Json,
        AppError::Certificate(_) => ErrorKind::Certificate,
        AppError::Nginx(_) => ErrorKind::Nginx,
        AppError::Config(_) => ErrorKind::Config,
        AppError::Conflict(_) => ErrorKind::Conflict,
        AppError::NotFound(_) => ErrorKind::NotFound,
        AppError::Validation(_) => ErrorKind::Validation,
        AppError::Dns(_) => ErrorKind::Dns,
        AppError::Acme(_) => ErrorKind::Acme,
    }
}

/// An error as a mathematical value: its category and message text.
pub open spec fn error_view(e: AppError) -> (ErrorKind, Seq<char>) {
    (kind_of(e), message_of(e))
}

/// `r` is `Ok(v)` where `expected` is `Ok(v)`, and an error of the expected
/// category and message where `expected` is `Err`.
pub open spec fn outcome_is<T>(r: Result<T, AppError>, expected: Result<T, (ErrorKind, Seq<char>)>) -> bool {
    match (r, expected) {
        (Ok(a), Ok(b)) => a == b,
        (Err(e), Err(x)) => error_view(e) == x,
        _ => false,
    }
}

/// The code shown to the user for a validation message.
pub open spec fn validation_code(msg: Seq<char>) -> Seq<char> {
    if has_match(msg, "Name"@) {
        "VALIDATION_NAME"@
    } else if has_match(msg, "listen_port"@) {
        "VALIDATION_PORT"@
    } else if has_match(msg, "upstream_port"@) {
        "VALIDATION_UPSTREAM_PORT"@
    } else if has_match(msg, "domain"@) {
        "VALIDATION_DOMAIN"@
    } else if has_match(msg, "proxy_type"@) {
        "VALIDATION_PROXY_TYPE"@
    } else if has_match(msg, "tls_mode"@) {
        "VALIDATION_TLS_MODE"@
    } else if has_match(msg, "certificate_id"@) {
        "VALIDATION_CERTIFICATE"@
    } else if has_match(msg, "websocket"@) {
        "VALIDATION_WEBSOCKET"@
    } else if has_match(msg, "path_prefix"@) {
        "VALIDATION_PATH_PREFIX"@
    } else if has_match(msg, "IP"@) || has_match(msg, "CIDR"@) {
        "VALIDATION_IP"@
    } else if has_match(msg, "Hostname"@) || has_match(msg, "hostname"@) {
        "VALIDATION_HOSTNAME"@
    } else {
        "VALIDATION_ERROR"@
    }
}

/// The machine-readable code of an error.
pub open spec fn error_code_spec(e: AppError) -> Seq<char> {
    match e {
        AppError::Database(_) => "DB_ERROR"@,
        AppError::Io(_) => "IO_ERROR"@,
        AppError::Json(_) => "JSON_ERROR"@,
        AppError::Certificate(_) => "CERT_ERROR"@,
        AppError::Nginx(_) => "NGINX_ERROR"@,
        AppError::Config(_) => "CONFIG_ERROR"@,
        AppError::Conflict(_) => "CONFLICT"@,
        AppError::NotFound(_) => "NOT_FOUND"@,
        AppError::Validation(m) => validation_code(m@),
        AppError::Dns(_) => "DNS_ERROR"@,
        AppError::Acme(_) => "ACME_ERROR"@,
    }
}

/// The prefix that the displayed form of an error starts with.
pub open spec fn display_prefix(e: AppError) -> Seq<char> {
    match e {
        AppError::Database(_) => "Database error: "@,
        AppError::Io(_) => "IO error: "@,
        AppError::Json(_) => "JSON error: "@,
        AppError::Certificate(_) => "Certificate error: "@,
        AppError::Nginx(_) => "Nginx error: "@,
        AppError::Config(_) => "Config error: "@,
        AppError::Conflict(_) => "Conflict: "@,
        AppError::NotFound(_) => "Not found: "@,
        AppError::Validation(_) => "Validation error: "@,
        AppError::Dns(_) => "DNS provider error: "@,
        AppError::Acme(_) => "ACME error: "@,
    }
}

fn validation_code_exec(msg: &str) -> (r: String)
    ensures
        r@ == validation_code(msg@),
{
    if contains(msg, "Name") {
        String::from_str("VALIDATION_NAME")
    } else if contains(msg, "listen_port") {
        String::from_str("VALIDATION_PORT")
    } else if contains(msg, "upstream_port") {
        String::from_str("VALIDATION_UPSTREAM_PORT")
    } else if contains(msg, "domain") {
        String::from_str("VALIDATION_DOMAIN")
    } else if contains(msg, "proxy_type") {
        String::from_str("VALIDATION_PROXY_TYPE")
    } else if contains(msg, "tls_mode") {
        String::from_str("VALIDATION_TLS_MODE")
    } else if contains(msg, "certificate_id") {
        String::from_str("VALIDATION_CERTIFICATE")
    } else if contains(msg, "websocket") {
        String::from_str("VALIDATION_WEBSOCKET")
    } else if contains(msg, "path_prefix") {
        String::from_str("VALIDATION_PATH_PREFIX")
    } else if contains(msg, "IP") || contains(msg, "CIDR") {
        String::from_str("VALIDATION_IP")
    } else if contains(msg, "Hostname") || contains(msg, "hostname") {
        String::from_str("VALIDATION_HOSTNAME")
    } else {
        String::from_str("VALIDATION_ERROR")
    }
}

impl AppError {
    /// The machine-readable code of this error.
    pub fn error_code(&self) -> (r: String)
        ensures
            r@ == error_code_spec(*self),
    {
        match self {
            AppError::Database(_) => String::from_str("DB_ERROR"),
            AppError::Io(_) => String::from_str("IO_ERROR"),
            AppError::Json(_) => String::from_str("JSON_ERROR"),
            AppError::Certificate(_) => String::from_str("CERT_ERROR"),
            AppError::Nginx(_) => String::from_str("NGINX_ERROR"),
            AppError::Config(_) => String::from_str("CONFIG_ERROR"),
            AppError::Conflict(_) => String::from_str("CONFLICT"),
            AppError::NotFound(_) => String::from_str("NOT_FOUND"),
            AppError::Validation(m) => validation_code_exec(m.as_str()),
            AppError::Dns(_) => String::from_str("DNS_ERROR"),
            AppError::Acme(_) => String::from_str("ACME_ERROR"),
        }
    }

    /// The message carried by this error.
    pub fn message(&self) -> (r: &str)
        ensures
            r@ == message_of(*self),
    {
        match self {
            AppError::Database(m) => m.as_str(),
            AppError::Io(m) => m.as_str(),
            AppError::Json(m) => m.as_str(),
            AppError::Certificate(m) => m.as_str(),
            AppError::Nginx(m) => m.as_str(),
            AppError::Config(m) => m.as_str(),
            AppError::Conflict(m) => m.as_str(),
            AppError::NotFound(m) => m.as_str(),
            AppError::Validation(m) => m.as_str(),
            AppError::Dns(m) => m.as_str(),
            AppError::Acme(m) => m.as_str(),
        }
    }

    /// The displayed form of this error: its category, then its message.
    pub fn to_display_string(&self) -> (r: String)
        ensures
            r@ == display_prefix(*self) + message_of(*self),
    {
        let prefix = match self {
            AppError::Database(_) => "Database error: ",
            AppError::Io(_) => "IO error: ",
            AppError::Json(_) => "JSON error: ",
            AppError::Certificate(_) => "Certificate error: ",
            AppError::Nginx(_) => "Nginx error: ",
            AppError::Config(_) => "Config error: ",
            AppError::Conflict(_) => "Conflict: ",
            AppError::NotFound(_) => "Not found: ",
            AppError::Validation(_) => "Validation error: ",
            AppError::Dns(_) => "DNS provider error: ",
            AppError::Acme(_) => "ACME error: ",
        };
        join2(prefix, self.message())
    }
}

} // verus!
