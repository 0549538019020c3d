//! What gRPC asks of TLS: the handshake must settle on HTTP/2.

use vstd::prelude::*;

verus! {

/// The ALPN protocols that a gRPC endpoint offers: `h2` alone.
pub fn alpn_protocols() -> (r: Vec<Vec<u8>>)
    ensures
        r@.len() == 1,
        r@[0]@ == seq![0x68u8, 0x32u8],
{
    vec![vec![0x68, 0x32]]
}

/// HTTP/2 is the one protocol that is offered.
pub proof fn law_only_http2_is_offered(r: Vec<Vec<u8>>)
    requires
        call_ensures(alpn_protocols, (), r),
    ensures
        r@.len() == 1,
        r@[0]@.len() == 2,
        r@[0]@[0] as char == 'h',
        r@[0]@[1] as char == '2',
{
}

} // verus!
