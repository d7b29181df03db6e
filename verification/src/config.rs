use vstd::prelude::*;

verus! {

/// Where the service listens, where its data lives, and where the signature
/// oracle is reached.
#[derive(Debug)]
pub struct ApiConfig {
    pub ip: String,
    pub port: u16,
    pub data_path: String,
    pub explorer_api_url: String,
}

impl Clone for ApiConfig {
    fn clone(&self) -> (r: Self)
        ensures
            r.ip@ == self.ip@,
            r.port == self.port,
            r.data_path@ == self.data_path@,
            r.explorer_api_url@ == self.explorer_api_url@,
    {
        ApiConfig {
            ip: self.ip.clone(),
            port: self.port,
            data_path: self.data_path.clone(),
            explorer_api_url: self.explorer_api_url.clone(),
        }
    }
}

} // verus!
