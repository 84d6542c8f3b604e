//! The service's settings.

use vstd::prelude::*;

verus! {

/// Where the service listens and what it talks to.
pub struct Config {
    pub host_name: String,
    pub redis_host_name: String,
    pub redis_port: u16,
    pub redis_db: u16,
    pub http_port: u16,
    pub static_path: String,
    pub hcaptcha_secret: String,
}

impl Config {
    /// Whether the service runs on the loopback host, where any origin is
    /// allowed.
    pub fn is_local(&self) -> (r: bool)
        ensures
            r == (self.host_name@ == "127.0.0.1"@),
    {
        let local = String::from_str("127.0.0.1");
        self.host_name == local
    }

    /// The address to listen on: loopback for a local service, every
    /// interface otherwise.
    pub fn listen_ip(&self) -> (r: [u8; 4])
        ensures
            self.host_name@ == "127.0.0.1"@ ==> r@ == seq![127u8, 0u8, 0u8, 1u8],
            self.host_name@ != "127.0.0.1"@ ==> r@ == seq![0u8, 0u8, 0u8, 0u8],
    {
        if self.is_local() {
            let r = [127u8, 0u8, 0u8, 1u8];
            assert(r@ =~= seq![127u8, 0u8, 0u8, 1u8]);
            r
        } else {
            let r = [0u8, 0u8, 0u8, 0u8];
            assert(r@ =~= seq![0u8, 0u8, 0u8, 0u8]);
            r
        }
    }
}

} // verus!
