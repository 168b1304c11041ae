//! The state of a JSON fetch: what its three signals hold before and after.

use vstd::prelude::*;

verus! {

/// How a fetch ended.
pub enum FetchOutcome<T> {
    /// The response arrived and read as the expected JSON.
    Data(T),
    /// The response arrived but did not read as the expected JSON.
    ParseError,
    /// The request failed, with the client's message.
    RequestError(String),
}

/// What a fetch's signals hold: the data, whether it is still loading, and
/// the error message.
pub struct FetchState<T> {
    pub data: Option<T>,
    pub loading: bool,
    pub error: Option<String>,
}

/// Before the response: no data, loading, no error.
pub fn initial_fetch_state<T>() -> (s: FetchState<T>)
    ensures
        s.data is None,
        s.loading,
        s.error is None,
{
    FetchState { data: None, loading: true, error: None }
}

/// After the response: the data, or the message `Parse Error`, or the
/// request's own message; no longer loading.
pub fn fetch_state<T>(outcome: FetchOutcome<T>) -> (s: FetchState<T>)
    ensures
        !s.loading,
        match outcome {
            FetchOutcome::Data(x) => s.data == Some(x) && s.error is None,
            FetchOutcome::ParseError => s.data is None && (s.error matches Some(e) && e@ == "Parse Error"@),
            FetchOutcome::RequestError(m) => s.data is None && s.error == Some(m),
        },
{
    match outcome {
        FetchOutcome::Data(x) => FetchState { data: Some(x), loading: false, error: None },
        FetchOutcome::ParseError => FetchState {
            data: None,
            loading: false,
            error: Some(String::from_str("Parse Error")),
        },
        FetchOutcome::RequestError(m) => FetchState { data: None, loading: false, error: Some(m) },
    }
}

} // verus!
