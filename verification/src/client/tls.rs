//! Accepting a TLS session for HTTP/2: the session is usable only if ALPN settled on `h2`.
use vstd::prelude::*;

verus! {

/// `h2`, the ALPN identifier of HTTP/2 over TLS.
pub open spec fn h2_protocol() -> Seq<u8> {
    seq![104u8, 50u8]
}

/// Whether the application protocol that ALPN selected (if it selected any) is `h2`.
pub fn negotiated_h2(selected: Option<&[u8]>) -> (is_h2: bool)
    ensures
        is_h2 == (selected is Some && selected.unwrap()@ == h2_protocol()),
{
    match selected {
        None => false,
        Some(protocol) => {
            if protocol.len() == 2 && protocol[0] == 104u8 && protocol[1] == 50u8 {
                assert(protocol@ =~= h2_protocol());
                true
            } else {
                false
            }
        },
    }
}

} // verus!
