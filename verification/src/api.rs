use vstd::prelude::*;
use vstd::string::StringExecFns;

verus! {

/// Access point for the chat completions endpoint of an upstream host.
///
/// Request construction and transport are the caller's responsibility;
/// this type only fixes the host and derives the endpoint URL from it.
pub struct OpenAIChatApi {
    pub host: String,
}

impl OpenAIChatApi {
    /// Remembers the host that completion requests will be sent to.
    pub fn new(host: &str) -> (api: Self)
        ensures
            api.host@ == host@,
    {
        OpenAIChatApi { host: host.to_owned() }
    }

    /// The URL of the chat completions endpoint under the configured host.
    pub fn completions_url(&self) -> (url: String)
        ensures
            url@ == self.host@ + "/v1/chat/completions"@,
    {
        self.host.clone().concat("/v1/chat/completions")
    }
}

} // verus!
