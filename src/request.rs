//! One download as the user asked for it, checked before any fetch.
use vstd::prelude::*;
use crate::error::DownloadError;
use crate::external::{opt_view, url_path_of, parse_url_path, lower_of, trimmed};
use crate::filename::{chosen_name, disposition_name, name_view, file_name_for, FetchMode};
use crate::rate::{rate_view, rate_of, parse_rate_limit, RateLimiter};
use vstd::string::StringExecFns;

verus! {

broadcast use vstd::string::group_string_axioms;

/// The directory written to when none is given.
pub const CURRENT_DIR: &'static str = ".";

/// One download: where from, under which name if one is imposed, into which
/// directory, and at what rate in bytes per second if limited.
pub struct DownloadRequest {
    pub source_url: String,
    pub explicit_filename: Option<String>,
    pub target_directory: String,
    pub rate_limit: Option<u64>,
}

/// The rate that an optional setting asks for.
pub open spec fn setting_rate(setting: Option<Seq<char>>) -> Option<nat> {
    match setting {
        Some(s) => rate_of(lower_of(trimmed(s))),
        None => None,
    }
}

impl DownloadRequest {
    /// The URL parses as an absolute URL and a rate, if any, is positive.
    pub open spec fn wf(&self) -> bool {
        url_path_of(self.source_url@) is Some && self.rate_limit != Some(0u64)
    }

    /// Checks and builds a request. A URL that does not parse fails as a
    /// fetch would; a missing directory means the current one; a rate
    /// setting that cannot be read sets no limit.
    pub fn new(source_url: String, explicit_filename: Option<String>, directory: Option<String>, rate_setting: Option<String>) -> (r: Result<Self, DownloadError>)
        ensures
            r is Ok <==> url_path_of(source_url@) is Some,
            r is Err ==> r == Err::<Self, DownloadError>(DownloadError::Fetch),
            r matches Ok(q) ==> {
                &&& q.wf()
                &&& q.source_url@ == source_url@
                &&& opt_view(q.explicit_filename) == opt_view(explicit_filename)
                &&& q.target_directory@ == match directory {
                    Some(d) => d@,
                    None => CURRENT_DIR@,
                }
                &&& rate_view(q.rate_limit) == setting_rate(opt_view(rate_setting))
            },
    {
        if parse_url_path(source_url.as_str()).is_none() {
            return Err(DownloadError::Fetch);
        }
        let target_directory = match directory {
            Some(d) => d,
            None => String::from_str(CURRENT_DIR),
        };
        let rate_limit = match &rate_setting {
            Some(s) => parse_rate_limit(s.as_str()),
            None => None,
        };
        Ok(DownloadRequest { source_url, explicit_filename, target_directory, rate_limit })
    }

    /// The file name for this download, given the response's
    /// `Content-Disposition` header value, if any.
    pub fn file_name(&self, content_disposition: &Option<String>) -> (r: Result<String, DownloadError>)
        ensures
            name_view(r) == chosen_name(self.source_url@, opt_view(self.explicit_filename), disposition_name(opt_view(*content_disposition)), FetchMode::Single),
    {
        file_name_for(self.source_url.as_str(), &self.explicit_filename, content_disposition, FetchMode::Single)
    }

    /// The limiter that paces the write of a body of `total` bytes.
    pub fn limiter(&self, total: usize) -> (r: RateLimiter)
        requires
            self.rate_limit != Some(0u64),
        ensures
            r.wf(),
            r.total == total,
            r.written == 0,
            r.rate == self.rate_limit,
    {
        RateLimiter::new(total, self.rate_limit)
    }
}

} // verus!
