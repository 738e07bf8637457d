//! What the rooms and the server answer when they refuse a call.

use vstd::prelude::*;
use vstd::string::*;

verus! {

/// Why a call was refused.
///
/// All but the last are answers to the caller, who may go on; none of them
/// leaves a room or the server changed. `UnexpectedTermination` says that the
/// room or the server that should have answered is gone.
#[derive(Clone, Copy, Debug, PartialEq, Eq, Structural)]
pub enum Error {
    /// The move is not a legal move of the player to move.
    InvalidMove,
    /// The room is not full yet, so play has not begun.
    TooEarly,
    /// The caller's token is not one that the server issued.
    InvalidToken,
    /// There is no room with that identifier.
    InvalidRoomId,
    /// Every seat of the room is taken.
    RoomFull,
    /// The room has no player with that index.
    InvalidPlayerId,
    /// The server hosts as many rooms as it may.
    ServerFull,
    /// No move has been accepted in the room yet.
    NoMove,
    /// The server or the room ended before it answered.
    UnexpectedTermination,
}

impl Error {
    /// The caller can recover from the error: every error but
    /// `UnexpectedTermination`.
    pub open spec fn spec_is_client_error(self) -> bool {
        self != Error::UnexpectedTermination
    }

    /// The status code with which the error is reported over HTTP.
    pub open spec fn spec_status_code(self) -> u16 {
        match self {
            Error::InvalidToken => 401,
            Error::ServerFull => 409,
            Error::NoMove => 404,
            Error::UnexpectedTermination => 500,
            _ => 400,
        }
    }

    /// The sentence that describes the error.
    pub open spec fn spec_message(self) -> Seq<char> {
        match self {
            Error::InvalidMove => "attempted move is not valid"@,
            Error::TooEarly => "game is not ready to accept moves yet"@,
            Error::InvalidToken => "user not authorized"@,
            Error::InvalidRoomId => "no such room exists"@,
            Error::RoomFull => "cannot join a full room"@,
            Error::InvalidPlayerId => "no such player exists"@,
            Error::ServerFull => "no space left in the server for another game"@,
            Error::NoMove => "no last move found"@,
            Error::UnexpectedTermination => "game server or room terminated unexpectedly"@,
        }
    }

    /// Whether the caller can recover from the error.
    pub fn is_client_error(&self) -> (recoverable: bool)
        ensures
            recoverable == self.spec_is_client_error(),
    {
        match self {
            Error::UnexpectedTermination => false,
            _ => true,
        }
    }

    /// The status code with which the error is reported over HTTP.
    pub fn status_code(&self) -> (code: u16)
        ensures
            code == self.spec_status_code(),
    {
        match self {
            Error::InvalidMove => 400,
            Error::TooEarly => 400,
            Error::InvalidToken => 401,
            Error::InvalidRoomId => 400,
            Error::RoomFull => 400,
            Error::InvalidPlayerId => 400,
            Error::ServerFull => 409,
            Error::NoMove => 404,
            Error::UnexpectedTermination => 500,
        }
    }

    /// The sentence that describes the error.
    pub fn message(&self) -> (text: String)
        ensures
            text@ == self.spec_message(),
    {
        match self {
            Error::InvalidMove => String::from_str("attempted move is not valid"),
            Error::TooEarly => String::from_str("game is not ready to accept moves yet"),
            Error::InvalidToken => String::from_str("user not authorized"),
            Error::InvalidRoomId => String::from_str("no such room exists"),
            Error::RoomFull => String::from_str("cannot join a full room"),
            Error::InvalidPlayerId => String::from_str("no such player exists"),
            Error::ServerFull => String::from_str("no space left in the server for another game"),
            Error::NoMove => String::from_str("no last move found"),
            Error::UnexpectedTermination => String::from_str(
                "game server or room terminated unexpectedly",
            ),
        }
    }
}

/// The errors of a move: what a room answers when it refuses a play or a pass.
#[derive(Clone, Copy, Debug, PartialEq, Eq, Structural)]
pub enum ClientError {
    /// The move is not a legal move of the player to move.
    InvalidMove,
    /// The room is not full yet, so play has not begun.
    TooEarly,
}

impl ClientError {
    /// The same error among all the errors.
    pub open spec fn spec_into_error(self) -> Error {
        match self {
            ClientError::InvalidMove => Error::InvalidMove,
            ClientError::TooEarly => Error::TooEarly,
        }
    }

    /// The same error among all the errors.
    pub fn into_error(self) -> (error: Error)
        ensures
            error == self.spec_into_error(),
            error.spec_is_client_error(),
            error.spec_status_code() == 400,
    {
        match self {
            ClientError::InvalidMove => Error::InvalidMove,
            ClientError::TooEarly => Error::TooEarly,
        }
    }
}

/// The caller's token is not one that the server issued.
#[derive(Clone, Copy, Debug, PartialEq, Eq, Structural)]
pub struct InvalidToken;

impl InvalidToken {
    /// The same error among all the errors.
    pub fn into_error(self) -> (error: Error)
        ensures
            error == Error::InvalidToken,
            error.spec_status_code() == 401,
    {
        Error::InvalidToken
    }
}

/// A refused attempt to join, with the reason in words.
#[derive(Debug)]
pub struct JoinFail {
    error: String,
}

impl View for JoinFail {
    type V = Seq<char>;

    /// The reason.
    closed spec fn view(&self) -> Seq<char> {
        self.error@
    }
}

impl JoinFail {
    /// A refusal for the reason `error`.
    pub fn new(error: String) -> (fail: JoinFail)
        ensures
            fail@ == error@,
    {
        JoinFail { error }
    }

    /// The reason.
    pub fn error(&self) -> (reason: &str)
        ensures
            reason@ == self@,
    {
        self.error.as_str()
    }
}

} // verus!
