//! The content assembler: after a method that carries content, a channel
//! expects one header frame, then body frames that add up to the body size
//! the header announced.

use vstd::prelude::*;
use crate::error::ConException;
use crate::frame::FrameType;
use crate::wire::{be16, be64, longlong, short};

verus! {

/// Where a channel stands in receiving content.
#[derive(Debug, Clone, Copy, PartialEq, Eq, Structural)]
pub enum Assembly {
    /// No content is under way.
    Idle,
    /// A content-carrying method arrived; its header frame comes next.
    AwaitHeader,
    /// The header arrived; `remaining` body octets are still to come.
    AwaitBody { remaining: u64 },
}

/// The methods that content follows: `Basic.Publish`, `Basic.Return`,
/// `Basic.Deliver` and `Basic.Get-Ok`.
pub open spec fn carries_content(class_id: int, method_id: int) -> bool {
    class_id == 60 && (method_id == 40 || method_id == 50 || method_id == 60 || method_id == 71)
}

/// The body size that a header payload announces: after the class id and
/// the weight, a `longlong`.
pub open spec fn header_body_size(p: Seq<u8>) -> int {
    be64(p.skip(4))
}

/// The state after a frame of type `kind` with payload `p`; any other
/// interleaving than method, header, bodies is `UnexpectedFrame`.
pub open spec fn assembly_next(state: Assembly, kind: FrameType, p: Seq<u8>) -> Result<
    Assembly,
    ConException,
> {
    if kind == FrameType::Heartbeat {
        Ok(state)
    } else {
        match state {
            Assembly::Idle => if kind == FrameType::Method {
                if p.len() >= 4 && carries_content(be16(p), be16(p.skip(2))) {
                    Ok(Assembly::AwaitHeader)
                } else {
                    Ok(Assembly::Idle)
                }
            } else {
                Err(ConException::UnexpectedFrame)
            },
            Assembly::AwaitHeader => if kind == FrameType::Header && p.len() >= 12 {
                if header_body_size(p) == 0 {
                    Ok(Assembly::Idle)
                } else {
                    Ok(Assembly::AwaitBody { remaining: header_body_size(p) as u64 })
                }
            } else if kind == FrameType::Header {
                Err(ConException::SyntaxError)
            } else {
                Err(ConException::UnexpectedFrame)
            },
            Assembly::AwaitBody { remaining } => if kind == FrameType::Body && p.len()
                <= remaining {
                if p.len() == remaining {
                    Ok(Assembly::Idle)
                } else {
                    Ok(Assembly::AwaitBody { remaining: (remaining - p.len()) as u64 })
                }
            } else {
                Err(ConException::UnexpectedFrame)
            },
        }
    }
}

/// Moves a channel's content assembly on by one frame.
pub fn assemble(state: Assembly, kind: FrameType, payload: &[u8]) -> (r: Result<
    Assembly,
    ConException,
>)
    ensures
        r == assembly_next(state, kind, payload@),
{
    if kind == FrameType::Heartbeat {
        return Ok(state);
    }
    match state {
        Assembly::Idle => {
            if kind != FrameType::Method {
                return Err(ConException::UnexpectedFrame);
            }
            if payload.len() < 4 {
                return Ok(Assembly::Idle);
            }
            let (rest, class_id) = match short(payload) {
                Ok(x) => x,
                Err(_) => return Ok(Assembly::Idle),
            };
            let (_, method_id) = match short(rest) {
                Ok(x) => x,
                Err(_) => return Ok(Assembly::Idle),
            };
            if class_id == 60 && (method_id == 40 || method_id == 50 || method_id == 60
                || method_id == 71) {
                Ok(Assembly::AwaitHeader)
            } else {
                Ok(Assembly::Idle)
            }
        },
        Assembly::AwaitHeader => {
            if kind != FrameType::Header {
                return Err(ConException::UnexpectedFrame);
            }
            if payload.len() < 12 {
                return Err(ConException::SyntaxError);
            }
            let (rest, _) = match short(payload) {
                Ok(x) => x,
                Err(_) => return Err(ConException::SyntaxError),
            };
            let (rest, _) = match short(rest) {
                Ok(x) => x,
                Err(_) => return Err(ConException::SyntaxError),
            };
            assert(rest@ =~= payload@.skip(4));
            let (_, body_size) = match longlong(rest) {
                Ok(x) => x,
                Err(_) => return Err(ConException::SyntaxError),
            };
            if body_size == 0 {
                Ok(Assembly::Idle)
            } else {
                Ok(Assembly::AwaitBody { remaining: body_size })
            }
        },
        Assembly::AwaitBody { remaining } => {
            if kind != FrameType::Body || payload.len() as u64 > remaining {
                return Err(ConException::UnexpectedFrame);
            }
            if payload.len() as u64 == remaining {
                Ok(Assembly::Idle)
            } else {
                Ok(Assembly::AwaitBody { remaining: remaining - payload.len() as u64 })
            }
        },
    }
}

} // verus!
