//! Process configuration: what the shell loads at start.
use vstd::prelude::*;

verus! {

/// The address the shell's page is loaded from.
pub open spec fn default_url() -> Seq<char> {
    "webview://index.html"@
}

/// The process configuration.
#[derive(Debug, Clone, PartialEq, Eq)]
pub struct Config {
    pub url: String,
}

impl Config {
    /// The configuration with the default page address; the embedding shell
    /// may override it from its environment before use.
    pub fn new() -> (c: Config)
        ensures
            c.url@ == default_url(),
    {
        Config { url: "webview://index.html".to_owned() }
    }
}

} // verus!
