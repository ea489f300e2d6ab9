//! Process-wide scan configuration: timeouts, fan-out limits, user agent.
//!
//! The configuration is an explicit value handed to each component.
//! Reading overrides from the environment is the caller's business; the
//! library only defines the shape, the defaults and the invariant.

use vstd::prelude::*;

verus! {

/// Tunables for one scan. All timeouts are in whole seconds and positive;
/// `max_stylesheets` and `max_imports` bound the fan-out over secondary
/// resources, so an adversarial page cannot trigger unbounded crawling.
pub struct Config {
    /// Overall HTTP client timeout in seconds.
    pub timeout_global_secs: u64,
    /// Timeout for one page, stylesheet or download request, in seconds.
    pub timeout_request_secs: u64,
    /// Timeout for the lightweight favicon existence probe, in seconds.
    pub timeout_probe_secs: u64,
    /// Timeout for image proxy requests, in seconds.
    pub timeout_image_secs: u64,
    /// Most stylesheets fetched per scan.
    pub max_stylesheets: usize,
    /// Most `@import` targets followed per stylesheet.
    pub max_imports: usize,
    /// User-Agent header sent with every request.
    pub user_agent: String,
    /// Most redirect hops the HTTP client may follow.
    pub max_redirects: usize,
}

impl Config {
    /// The configuration invariant: every timeout is positive.
    pub open spec fn wf(&self) -> bool {
        &&& self.timeout_global_secs > 0
        &&& self.timeout_request_secs > 0
        &&& self.timeout_probe_secs > 0
        &&& self.timeout_image_secs > 0
    }

    /// Whether every field holds its default value.
    pub open spec fn is_default(&self) -> bool {
        &&& self.timeout_global_secs == 30
        &&& self.timeout_request_secs == 10
        &&& self.timeout_probe_secs == 10
        &&& self.timeout_image_secs == 10
        &&& self.max_stylesheets == 20
        &&& self.max_imports == 5
        &&& self.user_agent@ == "Mozilla/5.0 (Windows NT 10.0; Win64; x64) AppleWebKit/537.36 (KHTML, like Gecko) Chrome/120.0.0.0 Safari/537.36"@
        &&& self.max_redirects == 10
    }
}

impl Default for Config {
    /// The documented defaults: 30s/10s/10s/10s timeouts, 20 stylesheets,
    /// 5 imports, 10 redirects.
    fn default() -> (r: Config)
        ensures
            r.is_default(),
            r.wf(),
    {
        Config {
            timeout_global_secs: 30,
            timeout_request_secs: 10,
            timeout_probe_secs: 10,
            timeout_image_secs: 10,
            max_stylesheets: 20,
            max_imports: 5,
            user_agent: String::from_str(
                "Mozilla/5.0 (Windows NT 10.0; Win64; x64) AppleWebKit/537.36 (KHTML, like Gecko) Chrome/120.0.0.0 Safari/537.36",
            ),
            max_redirects: 10,
        }
    }
}

/// The configuration a scan runs with when nothing overrides it.
pub fn config() -> (r: Config)
    ensures
        r.is_default(),
        r.wf(),
{
    Config::default()
}

} // verus!
