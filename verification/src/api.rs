use vstd::prelude::*;
use vstd::string::StrSliceExecFns;
use vstd::string::StringExecFns;

verus! {

/// The release-hosting API one fetch session talks to, identified by the
/// repository URL its endpoints live under.
#[derive(Debug)]
pub struct GitHubApi {
    base_url: String,
}

impl View for GitHubApi {
    type V = Seq<char>;

    closed spec fn view(&self) -> Seq<char> {
        self.base_url@
    }
}

impl Default for GitHubApi {
    fn default() -> (r: GitHubApi)
        ensures
            r@ == "https://api.github.com/repos/input-output-hk/jormungandr"@,
    {
        GitHubApi::new()
    }
}

impl GitHubApi {
    /// An API rooted at the given repository URL.
    pub fn for_crate(base_url: &str) -> (r: GitHubApi)
        ensures
            r@ == base_url@,
    {
        GitHubApi { base_url: base_url.to_owned() }
    }

    /// An API rooted at the default repository.
    pub fn new() -> (r: GitHubApi)
        ensures
            r@ == "https://api.github.com/repos/input-output-hk/jormungandr"@,
    {
        GitHubApi {
            base_url: String::from_str("https://api.github.com/repos/input-output-hk/jormungandr"),
        }
    }

    /// The repository URL this API is rooted at.
    pub fn base_url(&self) -> (r: &String)
        ensures
            r@ == self@,
    {
        &self.base_url
    }

    /// The full URL of an API path under this repository.
    pub fn endpoint_url(&self, path: &str) -> (r: String)
        ensures
            r@ == self@ + "/"@ + path@,
    {
        let mut url = self.base_url.clone();
        url.append("/");
        url.append(path);
        url
    }
}

/// True exactly when a rate-limit-remaining response header reports zero
/// requests left, in which case the fetch must fail with `RateLimitExceeded`
/// instead of reading the body.
pub fn rate_limit_exhausted(remaining: Option<&str>) -> (r: bool)
    ensures
        r == match remaining {
            Some(s) => s@ == "0"@,
            None => false,
        },
{
    match remaining {
        Some(s) => {
            proof {
                reveal_strlit("0");
            }
            let n = s.unicode_len();
            if n == 1 && s.get_char(0) == '0' {
                proof {
                    assert(s@ =~= "0"@);
                }
                true
            } else {
                false
            }
        },
        None => false,
    }
}

} // verus!
