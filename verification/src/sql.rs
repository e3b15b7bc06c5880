//! Settings of connections to SQL databases.

use vstd::prelude::*;

verus! {

/// The port number that a text stands for, in the notation of `u16`: digits
/// with an optional plus sign; `None` where the text is not such a number
/// or the number does not fit.
pub uninterp spec fn text_u16(s: Seq<char>) -> Option<u16>;

/// `str::parse::<u16>`. The contract names the result.
#[verifier::external_body]
fn parse_u16(s: &str) -> (r: Option<u16>)
    ensures
        r == text_u16(s@),
{
    s.parse::<u16>().ok()
}

/// Why a connection cannot be made.
#[derive(Debug, PartialEq, Eq)]
pub enum SqlError {
    /// The text given for the port is no port number.
    BadPort(String),
}

/// What is needed to reach a PostgreSQL database. What is left out is left
/// to the defaults of the client.
#[derive(Debug, PartialEq, Eq)]
pub struct PostgresConnection {
    pub user: Option<String>,
    pub password: Option<String>,
    pub host: String,
    pub port: Option<String>,
    pub database: Option<String>,
}

impl PostgresConnection {
    pub fn new(
        user: Option<String>,
        password: Option<String>,
        host: String,
        port: Option<String>,
        database: Option<String>,
    ) -> (r: PostgresConnection)
        ensures
            r == (PostgresConnection { user, password, host, port, database }),
    {
        PostgresConnection { user, password, host, port, database }
    }

    /// The number of the port to connect to, where one is given. A text
    /// that is no port number is refused.
    pub fn port_number(&self) -> (r: Result<Option<u16>, SqlError>)
        ensures
            match self.port {
                None => r == Ok::<Option<u16>, SqlError>(None),
                Some(text) => match text_u16(text@) {
                    Some(n) => r == Ok::<Option<u16>, SqlError>(Some(n)),
                    None => r == Err::<Option<u16>, SqlError>(SqlError::BadPort(text)),
                },
            },
    {
        match &self.port {
            None => Ok(None),
            Some(text) => match parse_u16(text.as_str()) {
                Some(n) => Ok(Some(n)),
                None => Err(SqlError::BadPort(text.clone())),
            },
        }
    }
}

} // verus!
