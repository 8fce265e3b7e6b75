//! The site configuration and the defaults of its optional fields.
use vstd::prelude::*;

verus! {

/// The site configuration, read once at startup.
#[derive(Debug, Clone)]
pub struct Config {
    pub site_name: String,
    pub site_url: String,
    pub site_description: String,
    pub site_language: String,
    pub posts_path: String,
    pub output_path: String,
    pub profile_path: Option<String>,
    pub article_format: String,
    pub default_author: String,
    pub web_master: String,
    pub github_repo: Option<String>,
    pub github_repo_id: Option<String>,
    pub google_analytics_id: Option<String>,
}

/// The site language where the configuration names none.
pub fn default_language() -> (r: String)
    ensures
        r@ == "zh-CN"@,
{
    String::from_str("zh-CN")
}

/// The article file extension where the configuration names none.
pub fn default_format() -> (r: String)
    ensures
        r@ == "md"@,
{
    String::from_str("md")
}

} // verus!
