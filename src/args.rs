//! The command line's values, as plain data.
use vstd::prelude::*;

use crate::pages::UriType;

verus! {

/// The URI kinds the command line accepts.
#[derive(Copy, Clone, Debug, PartialEq, Eq, Structural)]
pub enum UriTypeArg {
    /// A web URL.
    Web,
}

/// The command line: the URI, its kind, the concurrency and the timeouts.
#[derive(Debug, Clone)]
pub struct Args {
    /// Source URI to crawl.
    pub uri: String,
    /// URI kind.
    pub type_: UriTypeArg,
    /// Number of concurrent crawlers.
    pub concurrency: usize,
    /// Idle timeout in seconds.
    pub idle_timeout: u64,
    /// Total timeout in seconds.
    pub total_timeout: u64,
}

impl Args {
    /// The command line for `uri` with the defaults: a web URI, 4 crawlers,
    /// an idle timeout of 300 s and a total timeout of 1200 s.
    pub fn with_defaults(uri: String) -> (r: Args)
        ensures
            r.uri == uri,
            r.type_ == UriTypeArg::Web,
            r.concurrency == 4,
            r.idle_timeout == 300,
            r.total_timeout == 1200,
    {
        Args { uri, type_: UriTypeArg::Web, concurrency: 4, idle_timeout: 300, total_timeout: 1200 }
    }
}

/// The URI of the given kind.
pub fn convert_uri_type(arg_type: UriTypeArg, uri: &str) -> (r: UriType)
    ensures
        match arg_type {
            UriTypeArg::Web => r matches UriType::Web(u) && u@ == uri@,
        },
{
    match arg_type {
        UriTypeArg::Web => UriType::Web(String::from_str(uri)),
    }
}

} // verus!
