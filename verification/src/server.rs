//! The texts the HTTP server is started and answers pings with.
use vstd::prelude::*;

verus! {

/// The socket address the server listens on: all interfaces, the given port.
pub fn listen_addr(port: &str) -> (r: String)
    ensures
        r@ == "0.0.0.0:"@ + port@,
{
    let mut r = String::from_str("0.0.0.0:");
    r.append(port);
    r
}

/// The address of this platform as the others know it: `ip:port`.
pub fn server_addr(ip: &str, port: &str) -> (r: String)
    ensures
        r@ == ip@ + ":"@ + port@,
{
    let mut r = String::from_str(ip);
    r.append(":");
    r.append(port);
    r
}

/// The answer to a ping.
pub fn ping_message(addr: &str) -> (r: String)
    ensures
        r@ == "Hello,I`m "@ + addr@ + "!"@,
{
    let mut r = String::from_str("Hello,I`m ");
    r.append(addr);
    r.append("!");
    r
}

} // verus!
