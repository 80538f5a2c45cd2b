use vstd::prelude::*;

verus! {

/// Why the command line cannot be used.
#[derive(Debug, Clone, Copy, PartialEq, Eq, Structural)]
pub enum ArgumentError {
    /// The first or the last slot of the range is not given.
    MissingSlots,
    /// The RPC URL is empty or does not parse as a URL.
    InvalidRpcUrl,
}

/// Whether `text` parses as an absolute URL, as `url::Url::parse` decides.
pub uninterp spec fn parses_as_url(text: Seq<char>) -> bool;

/// Calls `url::Url::parse` and tells whether it succeeded; the answer depends on the text
/// alone and is named `parses_as_url`.
#[verifier::external_body]
fn url_parses(text: &str) -> (ok: bool)
    ensures
        ok == parses_as_url(text@),
{
    url::Url::parse(text).is_ok()
}

/// The verdict on the command line, given whether both ends of the slot range are given,
/// whether the RPC URL is empty and whether it parses: the slots are checked first.
pub fn arguments_outcome(slots_given: bool, rpc_url_empty: bool, rpc_url_parses: bool) -> (r: Result<(), ArgumentError>)
    ensures
        r == if !slots_given {
            Err::<(), ArgumentError>(ArgumentError::MissingSlots)
        } else if rpc_url_empty || !rpc_url_parses {
            Err(ArgumentError::InvalidRpcUrl)
        } else {
            Ok(())
        },
{
    if !slots_given {
        Err(ArgumentError::MissingSlots)
    } else if rpc_url_empty || !rpc_url_parses {
        Err(ArgumentError::InvalidRpcUrl)
    } else {
        Ok(())
    }
}

/// Checks the command line: both ends of the slot range must be given, and the RPC URL must
/// be a non-empty URL.
pub fn validate_arguments(from_slot: Option<u64>, to_slot: Option<u64>, rpc_url: &str) -> (r: Result<
    (),
    ArgumentError,
>)
    ensures
        r == if from_slot is None || to_slot is None {
            Err::<(), ArgumentError>(ArgumentError::MissingSlots)
        } else if rpc_url@.len() == 0 || !parses_as_url(rpc_url@) {
            Err(ArgumentError::InvalidRpcUrl)
        } else {
            Ok(())
        },
{
    let empty = rpc_url.is_empty();
    let parses = if empty {
        false
    } else {
        url_parses(rpc_url)
    };
    arguments_outcome(from_slot.is_some() && to_slot.is_some(), empty, parses)
}

} // verus!
