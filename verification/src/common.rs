//! Routing-tag codec.
//!
//! Every operation handed to the kernel carries a 64-bit token that the
//! kernel returns verbatim with the operation's completion. The reactor uses
//! that token to route the completion: either to its accept handler or to the
//! read/write transition of one addressed connection. The encoding must be
//! injective over the whole 32-bit id space and decode must invert it, so
//! that a completion can never be misrouted.
//!
//! Layout: the operation category occupies the low 32 bits (0 accept,
//! 1 read, 2 write) and the connection id the high 32 bits.

use vstd::arithmetic::div_mod::lemma_fundamental_div_mod_converse;
use vstd::prelude::*;

verus! {

/// Identifier of one accepted connection, assigned at accept time from a
/// monotonically increasing counter and never reused.
pub type Id = u32;

/// Where a completion must be routed: the accept stream, or the pending
/// read or write of the connection with the given id.
#[derive(Clone, Copy, Debug, PartialEq, Eq, Structural)]
pub enum Route {
    Accept,
    ClientRead(Id),
    ClientWrite(Id),
}

/// The id is stored in a token as a multiple of this constant, i.e. shifted
/// into the high 32 bits.
pub const ID_BASE: u64 = 0x1_0000_0000;

/// The token that `encode` produces for a route.
pub open spec fn spec_encode(route: Route) -> u64 {
    match route {
        Route::Accept => 0,
        Route::ClientRead(id) => (1 + (id as u64) * ID_BASE) as u64,
        Route::ClientWrite(id) => (2 + (id as u64) * ID_BASE) as u64,
    }
}

/// The route a token stands for, or `None` for a token that `encode` never
/// produces. Feeding such a token to the reactor is an internal-invariant
/// violation: the kernel only ever returns tokens the reactor submitted.
pub open spec fn spec_decode(token: u64) -> Option<Route> {
    let tag = token % ID_BASE;
    let id = (token / ID_BASE) as Id;
    if tag == 0 {
        if id == 0 {
            Some(Route::Accept)
        } else {
            None
        }
    } else if tag == 1 {
        Some(Route::ClientRead(id))
    } else if tag == 2 {
        Some(Route::ClientWrite(id))
    } else {
        None
    }
}

/// Pack a route into the opaque 64-bit token submitted to the kernel.
pub fn encode(route: Route) -> (token: u64)
    ensures
        token == spec_encode(route),
{
    match route {
        Route::Accept => 0,
        Route::ClientRead(id) => 1 + (id as u64) * ID_BASE,
        Route::ClientWrite(id) => 2 + (id as u64) * ID_BASE,
    }
}

/// Recover the route from a token returned by the kernel. Returns `None`
/// exactly on tokens that `encode` cannot have produced.
pub fn decode(token: u64) -> (route: Option<Route>)
    ensures
        route == spec_decode(token),
{
    let tag = token % ID_BASE;
    let id = (token / ID_BASE) as Id;
    proof {
        assert(token / ID_BASE < 0x1_0000_0000) by {
            vstd::arithmetic::div_mod::lemma_fundamental_div_mod(token as int, ID_BASE as int);
            if token / ID_BASE >= 0x1_0000_0000 {
                vstd::arithmetic::mul::lemma_mul_inequality(
                    0x1_0000_0000,
                    token as int / ID_BASE as int,
                    ID_BASE as int,
                );
            }
        }
    }
    if tag == 0 {
        if id == 0 {
            Some(Route::Accept)
        } else {
            None
        }
    } else if tag == 1 {
        Some(Route::ClientRead(id))
    } else if tag == 2 {
        Some(Route::ClientWrite(id))
    } else {
        None
    }
}

/// Law: decoding an encoded route gives the route back, for every category
/// and every id in the full 32-bit space.
pub proof fn lemma_decode_encode(route: Route)
    ensures
        spec_decode(spec_encode(route)) == Some(route),
{
    match route {
        Route::Accept => {
            lemma_fundamental_div_mod_converse(0, ID_BASE as int, 0, 0);
        },
        Route::ClientRead(id) => {
            lemma_fundamental_div_mod_converse(
                spec_encode(route) as int,
                ID_BASE as int,
                id as int,
                1,
            );
        },
        Route::ClientWrite(id) => {
            lemma_fundamental_div_mod_converse(
                spec_encode(route) as int,
                ID_BASE as int,
                id as int,
                2,
            );
        },
    }
}

/// Law: the encoding is injective — two distinct routes never share a token.
pub proof fn lemma_encode_injective(a: Route, b: Route)
    ensures
        spec_encode(a) == spec_encode(b) ==> a == b,
{
    if spec_encode(a) == spec_encode(b) {
        lemma_decode_encode(a);
        lemma_decode_encode(b);
    }
}

} // verus!
