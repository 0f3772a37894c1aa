//! Errors of the room and game operations.

use vstd::prelude::*;

verus! {

/// Why a room or game operation was refused.
#[derive(Clone, Copy, Debug, PartialEq, Eq, Structural)]
pub enum RoomError {
    RoomNotFound,
    RoomFull,
    AlreadyJoined,
    WrongPhase,
    NotAMember,
    NotHost,
    NotEnoughPlayers,
    NotAllReady,
    NotYourTurn,
    CardNotInHand,
    IllegalMove,
    Exhausted,
}

/// The coarse class of an error, for the transport layer to map onto a response.
#[derive(Clone, Copy, Debug, PartialEq, Eq, Structural)]
pub enum ErrorKind {
    NotFound,
    Conflict,
    Forbidden,
    InvalidMove,
    Exhausted,
}

pub open spec fn kind_spec(e: RoomError) -> ErrorKind {
    match e {
        RoomError::RoomNotFound => ErrorKind::NotFound,
        RoomError::RoomFull | RoomError::AlreadyJoined | RoomError::WrongPhase | RoomError::NotHost
        | RoomError::NotEnoughPlayers | RoomError::NotAllReady => ErrorKind::Conflict,
        RoomError::NotYourTurn | RoomError::NotAMember => ErrorKind::Forbidden,
        RoomError::IllegalMove | RoomError::CardNotInHand => ErrorKind::InvalidMove,
        RoomError::Exhausted => ErrorKind::Exhausted,
    }
}

impl RoomError {
    /// The class this error belongs to.
    pub fn kind(&self) -> (r: ErrorKind)
        ensures
            r == kind_spec(*self),
    {
        match self {
            RoomError::RoomNotFound => ErrorKind::NotFound,
            RoomError::RoomFull | RoomError::AlreadyJoined | RoomError::WrongPhase
            | RoomError::NotHost | RoomError::NotEnoughPlayers
            | RoomError::NotAllReady => ErrorKind::Conflict,
            RoomError::NotYourTurn | RoomError::NotAMember => ErrorKind::Forbidden,
            RoomError::IllegalMove | RoomError::CardNotInHand => ErrorKind::InvalidMove,
            RoomError::Exhausted => ErrorKind::Exhausted,
        }
    }
}

} // verus!
