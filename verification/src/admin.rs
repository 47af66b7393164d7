//! The administration protocol: requests sent over the admin socket, how the
//! server answers them, and what the command line prints of the answers.

use vstd::prelude::*;
use crate::cache_service::{CacheOperationResult, CacheService};
use crate::cache::{settled, without_prefix};
use crate::text::{copy_str, has_prefix};

verus! {

pub enum AdminRequest {
    Purge { path: String },
    PurgePrefix { prefix: String },
    PurgeAll,
    Stats,
}

pub enum AdminResponse {
    Success { message: String },
    Stats { entry_count: u64 },
    Error { message: String },
}

/// Carries out an administrative request on the cache. The cache keeps its
/// capacity and default lifetime and accounts for no more entries; while it is
/// within its capacity, a purge removes exactly the entries it names.
pub fn process_request(request: AdminRequest, service: &mut CacheService) -> (r: AdminResponse)
    ensures
        settled(old(service).inner(), final(service).inner()),
        match request {
            AdminRequest::Purge { path } => {
                &&& final(service)@.submap_of(old(service)@.remove(path@))
                &&& old(service).inner().within_capacity() ==> final(service)@ == old(service)@.remove(path@)
                &&& r matches AdminResponse::Success { message } && message@ == "Purged: "@ + path@
            },
            AdminRequest::PurgePrefix { prefix } => {
                &&& final(service)@.submap_of(without_prefix(old(service)@, prefix@))
                &&& forall|k: Seq<char>| #[trigger] final(service)@.contains_key(k) ==> !has_prefix(k, prefix@)
                &&& old(service).inner().within_capacity() ==> final(service)@ == without_prefix(old(service)@, prefix@)
                &&& r matches AdminResponse::Success { message } && message@ == "Purged prefix: "@ + prefix@
            },
            AdminRequest::PurgeAll => {
                &&& final(service)@.is_empty()
                &&& r matches AdminResponse::Success { message } && message@ == "All cache cleared"@
            },
            AdminRequest::Stats => {
                &&& *final(service) == *old(service)
                &&& r matches AdminResponse::Stats { entry_count } && entry_count == old(service).entry_estimate()
            },
        },
{
    let result = match request {
        AdminRequest::Purge { path } => service.purge(path.as_str()),
        AdminRequest::PurgePrefix { prefix } => service.purge_prefix(prefix.as_str()),
        AdminRequest::PurgeAll => service.purge_all(),
        AdminRequest::Stats => service.stats(),
    };
    match result {
        CacheOperationResult::Success { message } => AdminResponse::Success { message },
        CacheOperationResult::Stats { entry_count } => AdminResponse::Stats { entry_count },
    }
}

/// The request that the `purge` command sends: everything with `all`, else
/// the prefix when one is given, else the path when one is given, else
/// everything.
pub fn purge_request(path: Option<String>, prefix: Option<String>, all: bool) -> (r: AdminRequest)
    ensures
        all ==> r is PurgeAll,
        !all && prefix is Some ==> (r matches AdminRequest::PurgePrefix { prefix: p } && p@ == prefix->0@),
        !all && prefix is None && path is Some ==> (r matches AdminRequest::Purge { path: p } && p@ == path->0@),
        !all && prefix is None && path is None ==> r is PurgeAll,
{
    if all {
        AdminRequest::PurgeAll
    } else if let Some(prefix) = prefix {
        AdminRequest::PurgePrefix { prefix }
    } else if let Some(path) = path {
        AdminRequest::Purge { path }
    } else {
        AdminRequest::PurgeAll
    }
}

/// A line for the command line to print.
pub enum CliOutput {
    Stdout(String),
    Stderr(String),
    Nothing,
}

/// The decimal digit for `d` (below 10).
pub open spec fn digit_char(d: int) -> char {
    (48 + d) as char
}

/// `n` written in decimal, without leading zeros.
pub open spec fn decimal(n: nat) -> Seq<char>
    decreases n,
{
    if n < 10 {
        seq![digit_char(n as int)]
    } else {
        decimal(n / 10) + seq![digit_char((n % 10) as int)]
    }
}

fn digit_str(d: u64) -> (r: String)
    requires
        d < 10,
    ensures
        r@ == seq![digit_char(d as int)],
{
    let digits = "0123456789";
    proof {
        reveal_strlit("0123456789");
    }
    let one = digits.substring_char(d as usize, (d + 1) as usize);
    proof {
        assert(one@ =~= seq![digit_char(d as int)]);
    }
    copy_str(one)
}

/// `n` in decimal.
pub fn decimal_string(n: u64) -> (r: String)
    ensures
        r@ == decimal(n as nat),
    decreases n,
{
    if n < 10 {
        digit_str(n)
    } else {
        let tail = digit_str(n % 10);
        decimal_string(n / 10).concat(tail.as_str())
    }
}

/// What the `purge` command prints of the answer: the message on standard
/// output, an error on standard error, nothing for other answers.
pub fn purge_output(response: &AdminResponse) -> (r: CliOutput)
    ensures
        match *response {
            AdminResponse::Success { message } => r matches CliOutput::Stdout(s) && s@ == message@,
            AdminResponse::Error { message } => r matches CliOutput::Stderr(s) && s@ == "Error: "@ + message@,
            AdminResponse::Stats { .. } => r is Nothing,
        },
{
    match response {
        AdminResponse::Success { message } => CliOutput::Stdout(message.clone()),
        AdminResponse::Error { message } => CliOutput::Stderr(copy_str("Error: ").concat(message.as_str())),
        AdminResponse::Stats { .. } => CliOutput::Nothing,
    }
}

/// What the `stats` command prints of the answer: the entry count on standard
/// output, an error on standard error, nothing for other answers.
pub fn stats_output(response: &AdminResponse) -> (r: CliOutput)
    ensures
        match *response {
            AdminResponse::Stats { entry_count } => r matches CliOutput::Stdout(s)
                && s@ == "Cache entries: "@ + decimal(entry_count as nat),
            AdminResponse::Error { message } => r matches CliOutput::Stderr(s) && s@ == "Error: "@ + message@,
            AdminResponse::Success { .. } => r is Nothing,
        },
{
    match response {
        AdminResponse::Stats { entry_count } => {
            let count = decimal_string(*entry_count);
            CliOutput::Stdout(copy_str("Cache entries: ").concat(count.as_str()))
        },
        AdminResponse::Error { message } => CliOutput::Stderr(copy_str("Error: ").concat(message.as_str())),
        AdminResponse::Success { .. } => CliOutput::Nothing,
    }
}

} // verus!
