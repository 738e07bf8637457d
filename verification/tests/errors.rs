use badam_sat::errors::{ClientError, Error, InvalidToken, JoinFail};

const ALL: [Error; 9] = [
    Error::InvalidMove,
    Error::TooEarly,
    Error::InvalidToken,
    Error::InvalidRoomId,
    Error::RoomFull,
    Error::InvalidPlayerId,
    Error::ServerFull,
    Error::NoMove,
    Error::UnexpectedTermination,
];

#[test]
fn every_error_but_the_last_is_the_callers_to_mend() {
    for error in ALL {
        assert_eq!(error.is_client_error(), error != Error::UnexpectedTermination);
    }
}

#[test]
fn errors_have_their_status_codes() {
    let codes: Vec<u16> = ALL.iter().map(|error| error.status_code()).collect();
    assert_eq!(codes, vec![400, 400, 401, 400, 400, 400, 409, 404, 500]);
}

#[test]
fn errors_have_their_sentences() {
    let sentences: Vec<String> = ALL.iter().map(|error| error.message()).collect();
    assert_eq!(
        sentences,
        vec![
            "attempted move is not valid",
            "game is not ready to accept moves yet",
            "user not authorized",
            "no such room exists",
            "cannot join a full room",
            "no such player exists",
            "no space left in the server for another game",
            "no last move found",
            "game server or room terminated unexpectedly",
        ]
    );
}

#[test]
fn errors_of_a_move_are_errors() {
    assert_eq!(ClientError::InvalidMove.into_error(), Error::InvalidMove);
    assert_eq!(ClientError::TooEarly.into_error(), Error::TooEarly);
    assert_eq!(InvalidToken.into_error(), Error::InvalidToken);
}

#[test]
fn join_failure_carries_its_reason() {
    let fail = JoinFail::new(String::from("server is full"));
    assert_eq!(fail.error(), "server is full");
    assert_eq!(JoinFail::new(String::new()).error(), "");
}
