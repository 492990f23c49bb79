use vstd::prelude::*;

verus! {

/// Failures surfaced to clients, each carrying its detail text.
#[derive(Clone, Debug, PartialEq, Eq)]
pub enum AppError {
    ConfigError(String),
    IoError(String),
    HttpError(String),
    UriError(String),
    ReqwestError(String),
    RegexError(String),
    AddrParseError(String),
    CacheError(String),
    RateLimitError(String),
    InvalidRequest(String),
}

/// The HTTP status answered for each kind of failure.
pub open spec fn status_of(e: AppError) -> u16 {
    match e {
        AppError::ConfigError(_) => 500,
        AppError::IoError(_) => 500,
        AppError::HttpError(_) => 400,
        AppError::UriError(_) => 400,
        AppError::ReqwestError(_) => 503,
        AppError::RegexError(_) => 500,
        AppError::AddrParseError(_) => 500,
        AppError::CacheError(_) => 500,
        AppError::RateLimitError(_) => 429,
        AppError::InvalidRequest(_) => 400,
    }
}

/// The category string of the JSON error body.
pub open spec fn category_of(e: AppError) -> Seq<char> {
    match e {
        AppError::ConfigError(_) => "Configuration error"@,
        AppError::IoError(_) => "IO error"@,
        AppError::HttpError(_) => "HTTP error"@,
        AppError::UriError(_) => "Invalid URI"@,
        AppError::ReqwestError(_) => "Service unavailable"@,
        AppError::RegexError(_) => "Regex error"@,
        AppError::AddrParseError(_) => "Address parse error"@,
        AppError::CacheError(_) => "Cache error"@,
        AppError::RateLimitError(_) => "Rate limit exceeded"@,
        AppError::InvalidRequest(_) => "Invalid request"@,
    }
}

/// The lead-in of the message text, before the detail.
pub open spec fn prefix_of(e: AppError) -> Seq<char> {
    match e {
        AppError::ConfigError(_) => "Configuration error: "@,
        AppError::IoError(_) => "IO error: "@,
        AppError::HttpError(_) => "HTTP error: "@,
        AppError::UriError(_) => "URI error: "@,
        AppError::ReqwestError(_) => "Reqwest error: "@,
        AppError::RegexError(_) => "Regex error: "@,
        AppError::AddrParseError(_) => "Address parse error: "@,
        AppError::CacheError(_) => "Cache error: "@,
        AppError::RateLimitError(_) => "Rate limit error: "@,
        AppError::InvalidRequest(_) => "Invalid request: "@,
    }
}

pub open spec fn detail_of(e: AppError) -> Seq<char> {
    match e {
        AppError::ConfigError(d) => d@,
        AppError::IoError(d) => d@,
        AppError::HttpError(d) => d@,
        AppError::UriError(d) => d@,
        AppError::ReqwestError(d) => d@,
        AppError::RegexError(d) => d@,
        AppError::AddrParseError(d) => d@,
        AppError::CacheError(d) => d@,
        AppError::RateLimitError(d) => d@,
        AppError::InvalidRequest(d) => d@,
    }
}

impl AppError {
    /// The HTTP status of this failure.
    pub fn status(&self) -> (r: u16)
        ensures
            r == status_of(*self),
    {
        match self {
            AppError::ConfigError(_) => 500,
            AppError::IoError(_) => 500,
            AppError::HttpError(_) => 400,
            AppError::UriError(_) => 400,
            AppError::ReqwestError(_) => 503,
            AppError::RegexError(_) => 500,
            AppError::AddrParseError(_) => 500,
            AppError::CacheError(_) => 500,
            AppError::RateLimitError(_) => 429,
            AppError::InvalidRequest(_) => 400,
        }
    }

    /// The `error` field of the JSON body.
    pub fn category(&self) -> (r: &'static str)
        ensures
            r@ == category_of(*self),
    {
        match self {
            AppError::ConfigError(_) => "Configuration error",
            AppError::IoError(_) => "IO error",
            AppError::HttpError(_) => "HTTP error",
            AppError::UriError(_) => "Invalid URI",
            AppError::ReqwestError(_) => "Service unavailable",
            AppError::RegexError(_) => "Regex error",
            AppError::AddrParseError(_) => "Address parse error",
            AppError::CacheError(_) => "Cache error",
            AppError::RateLimitError(_) => "Rate limit exceeded",
            AppError::InvalidRequest(_) => "Invalid request",
        }
    }

    fn prefix(&self) -> (r: &'static str)
        ensures
            r@ == prefix_of(*self),
    {
        match self {
            AppError::ConfigError(_) => "Configuration error: ",
            AppError::IoError(_) => "IO error: ",
            AppError::HttpError(_) => "HTTP error: ",
            AppError::UriError(_) => "URI error: ",
            AppError::ReqwestError(_) => "Reqwest error: ",
            AppError::RegexError(_) => "Regex error: ",
            AppError::AddrParseError(_) => "Address parse error: ",
            AppError::CacheError(_) => "Cache error: ",
            AppError::RateLimitError(_) => "Rate limit error: ",
            AppError::InvalidRequest(_) => "Invalid request: ",
        }
    }

    /// The `message` field of the JSON body: the kind's lead-in followed by
    /// the detail.
    pub fn message(&self) -> (r: String)
        ensures
            r@ == prefix_of(*self) + detail_of(*self),
    {
        let mut r = self.prefix().to_owned();
        let detail = match self {
            AppError::ConfigError(d) => d,
            AppError::IoError(d) => d,
            AppError::HttpError(d) => d,
            AppError::UriError(d) => d,
            AppError::ReqwestError(d) => d,
            AppError::RegexError(d) => d,
            AppError::AddrParseError(d) => d,
            AppError::CacheError(d) => d,
            AppError::RateLimitError(d) => d,
            AppError::InvalidRequest(d) => d,
        };
        r.append(detail.as_str());
        r
    }
}

} // verus!
