//! What is known of the attempts that a query took.

use crate::text;
use crate::time::Duration;
use vstd::prelude::*;

verus! {

/// One attempt to ask an upstream server.
#[derive(Clone, Debug)]
pub struct UpstreamStatistics {
    pub error: Option<String>,
    pub address: String,
    pub query_duration: Duration,
    pub is_cached: bool,
}

/// What an attempt's statistics say.
pub struct StatView {
    pub error: Option<Seq<char>>,
    pub address: Seq<char>,
    pub query_duration: Duration,
    pub is_cached: bool,
}

impl View for UpstreamStatistics {
    type V = StatView;

    open spec fn view(&self) -> StatView {
        StatView {
            error: text::opt_text(self.error),
            address: self.address@,
            query_duration: self.query_duration,
            is_cached: self.is_cached,
        }
    }
}

/// What each of a list of statistics says.
pub open spec fn stat_views(stats: Seq<UpstreamStatistics>) -> Seq<StatView> {
    stats.map_values(|s: UpstreamStatistics| s@)
}

/// The statistics of an attempt that was answered.
pub open spec fn success_stat(address: Seq<char>, query_duration: Duration) -> StatView {
    StatView { error: None, address, query_duration, is_cached: false }
}

/// The statistics of an attempt that failed.
pub open spec fn failure_stat(
    address: Seq<char>,
    query_duration: Duration,
    error: Seq<char>,
) -> StatView {
    StatView { error: Some(error), address, query_duration, is_cached: false }
}

impl UpstreamStatistics {
    pub fn success(address: String, query_duration: Duration) -> (s: Self)
        ensures
            s@ == success_stat(address@, query_duration),
    {
        UpstreamStatistics { error: None, address, query_duration, is_cached: false }
    }

    pub fn failure(address: String, query_duration: Duration, error: String) -> (s: Self)
        ensures
            s@ == failure_stat(address@, query_duration, error@),
    {
        UpstreamStatistics { error: Some(error), address, query_duration, is_cached: false }
    }
}

/// The attempts of a query: those of the main upstream servers and those of the fallback ones.
#[derive(Clone, Debug)]
pub struct QueryStatistics {
    main: Vec<UpstreamStatistics>,
    fallback: Vec<UpstreamStatistics>,
}

impl Default for QueryStatistics {
    fn default() -> (s: Self)
        ensures
            s.main_attempts().len() == 0,
            s.fallback_attempts().len() == 0,
    {
        QueryStatistics { main: Vec::new(), fallback: Vec::new() }
    }
}

impl QueryStatistics {
    /// The attempts at the main upstream servers.
    pub closed spec fn main_attempts(&self) -> Seq<UpstreamStatistics> {
        self.main@
    }

    /// The attempts at the fallback upstream servers.
    pub closed spec fn fallback_attempts(&self) -> Seq<UpstreamStatistics> {
        self.fallback@
    }

    pub fn with_main(main: Vec<UpstreamStatistics>) -> (s: Self)
        ensures
            s.main_attempts() == main@,
            s.fallback_attempts().len() == 0,
    {
        QueryStatistics { main, fallback: Vec::new() }
    }

    pub fn main(&self) -> (stats: &[UpstreamStatistics])
        ensures
            stats@ == self.main_attempts(),
    {
        self.main.as_slice()
    }

    pub fn fallback(&self) -> (stats: &[UpstreamStatistics])
        ensures
            stats@ == self.fallback_attempts(),
    {
        self.fallback.as_slice()
    }
}

/// The statistics of an attempt tell whom it asked, how long it took, and the error, exactly where
/// there was one. They are those of this query.
pub proof fn law_attempts_tell_their_error(
    address: Seq<char>,
    query_duration: Duration,
    error: Seq<char>,
)
    ensures
        success_stat(address, query_duration) == (StatView {
            error: None,
            address,
            query_duration,
            is_cached: false,
        }),
        failure_stat(address, query_duration, error) == (StatView {
            error: Some(error),
            address,
            query_duration,
            is_cached: false,
        }),
{
}

} // verus!
