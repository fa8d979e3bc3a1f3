use mcping::errors::{ExchangeError, FormatError};
use mcping::exchange::{i64_be_bytes, ping, port_be_bytes, Exchange, ExchangeAction, ExchangeEvent, ExchangeStep};
use mcping::packet::PacketDecoder;
use mcping::proto_string::to_proto_string;

#[test]
fn handshake() {
    let frame = mcping::exchange::handshake("0.0.0.0", 1).unwrap();
    assert_eq!(
        frame,
        [17, 0, 255, 255, 255, 255, 15, 7, 48, 46, 48, 46, 48, 46, 48, 0, 1, 1]
    );

    let frame = mcping::exchange::handshake("127.0.0.1", 25565).unwrap();
    assert_eq!(
        frame,
        [19, 0, 255, 255, 255, 255, 15, 9, 49, 50, 55, 46, 48, 46, 48, 46, 49, 99, 221, 1]
    );
}

#[test]
fn request() {
    assert_eq!(mcping::exchange::request(), [1, 0]);
}

#[test]
fn handshake_rejects_long_address() {
    let long = "a".repeat(256);
    assert_eq!(
        mcping::exchange::handshake(&long, 25565),
        Err(ExchangeError::AddressTooLong)
    );
    let edge = "a".repeat(255);
    assert!(mcping::exchange::handshake(&edge, 25565).is_ok());
}

#[test]
fn port_travels_big_endian() {
    assert_eq!(port_be_bytes(1), [0, 1]);
    assert_eq!(port_be_bytes(25565), [99, 221]);
    assert_eq!(port_be_bytes(65535), [255, 255]);
}

#[test]
fn ping_frame_carries_eight_byte_payload() {
    assert_eq!(ping(1000), [9, 1, 0, 0, 0, 0, 0, 0, 3, 232]);
    assert_eq!(i64_be_bytes(-1), [255; 8]);
    assert_eq!(i64_be_bytes(1), [0, 0, 0, 0, 0, 0, 0, 1]);
}

#[test]
fn pong_mismatch_is_a_protocol_violation() {
    let echoed = i64_be_bytes(999);
    assert_eq!(
        mcping::exchange::pong(&echoed, 1000),
        Err(ExchangeError::ProtocolViolation)
    );
    let echoed = i64_be_bytes(1000);
    assert_eq!(mcping::exchange::pong(&echoed, 1000), Ok(1000));
}

#[test]
fn pong_requires_exactly_eight_bytes() {
    assert_eq!(
        mcping::exchange::pong(&[0, 0, 3, 232], 1000),
        Err(ExchangeError::ProtocolViolation)
    );
    assert_eq!(
        mcping::exchange::pong(&[0, 0, 0, 0, 0, 0, 0, 3, 232], 1000),
        Err(ExchangeError::ProtocolViolation)
    );
}

#[test]
fn response_extracts_the_json_text() {
    let json = "{\"version\":{\"name\":\"1.8\",\"protocol\":47}}";
    let data = to_proto_string(json);
    assert_eq!(mcping::exchange::response(&data).unwrap(), json);
}

#[test]
fn response_rejects_garbage_payloads() {
    assert_eq!(
        mcping::exchange::response(&[255, 255, 255, 255, 255]),
        Err(ExchangeError::Format(FormatError::TooLong))
    );
    assert_eq!(
        mcping::exchange::response(&[9, 1, 2]),
        Err(ExchangeError::Format(FormatError::InvalidString))
    );
    assert_eq!(
        mcping::exchange::response(&[2, 0xc3, 0x28]),
        Err(ExchangeError::Format(FormatError::InvalidString))
    );
}

#[test]
fn probe_of_a_garbage_peer_never_succeeds() {
    // A peer that accepts the connection but streams junk: the frame either
    // errs out or never completes, so the probe resolves to "not open" once
    // its read is cut off; it never yields a status.
    let decoder = PacketDecoder;

    let mut oversized = vec![255u8; 32];
    assert_eq!(decoder.decode(&mut oversized), Err(FormatError::TooLong));

    // A length field promising more than ever arrives: every retry keeps
    // waiting and consumes nothing, so the timeout decides.
    let mut starving = vec![120, 0, 1, 2, 3];
    for _ in 0..3 {
        assert_eq!(decoder.decode(&mut starving), Ok(None));
        assert_eq!(starving, [120, 0, 1, 2, 3]);
    }
}

#[test]
fn exchange_runs_the_steps_in_strict_order() {
    let mut exchange = Exchange::new(String::from("0.0.0.0"), 1, 1000, true).unwrap();
    assert_eq!(exchange.step, ExchangeStep::SendHandshake);

    match exchange.step(ExchangeEvent::Ready).unwrap() {
        ExchangeAction::Send(v) => assert_eq!(
            v,
            [17, 0, 255, 255, 255, 255, 15, 7, 48, 46, 48, 46, 48, 46, 48, 0, 1, 1]
        ),
        other => panic!("expected the handshake, got {:?}", other),
    }
    match exchange.step(ExchangeEvent::Ready).unwrap() {
        ExchangeAction::Send(v) => assert_eq!(v, [1, 0]),
        other => panic!("expected the status request, got {:?}", other),
    }
    assert!(matches!(
        exchange.step(ExchangeEvent::Ready).unwrap(),
        ExchangeAction::ReadFrame
    ));
    let status_payload = to_proto_string("{\"players\":{\"max\":20,\"online\":0}}");
    match exchange.step(ExchangeEvent::Frame(status_payload)).unwrap() {
        ExchangeAction::Status(json) => {
            assert_eq!(json, "{\"players\":{\"max\":20,\"online\":0}}")
        }
        other => panic!("expected the status text, got {:?}", other),
    }
    match exchange.step(ExchangeEvent::Ready).unwrap() {
        ExchangeAction::Send(v) => assert_eq!(v, [9, 1, 0, 0, 0, 0, 0, 0, 3, 232]),
        other => panic!("expected the ping, got {:?}", other),
    }
    assert!(matches!(
        exchange.step(ExchangeEvent::Ready).unwrap(),
        ExchangeAction::ReadFrame
    ));

    // A pong that does not echo the ping is a protocol violation...
    let wrong = exchange.step(ExchangeEvent::Frame(i64_be_bytes(999)));
    assert!(matches!(wrong, Err(ExchangeError::ProtocolViolation)));

    // ...and the faithful echo finishes the exchange.
    match exchange.step(ExchangeEvent::Frame(i64_be_bytes(1000))).unwrap() {
        ExchangeAction::Done(v) => assert_eq!(v, 1000),
        other => panic!("expected completion, got {:?}", other),
    }
    assert_eq!(exchange.step, ExchangeStep::Complete);
}

#[test]
fn probe_exchange_stops_after_the_status() {
    let mut exchange = Exchange::new(String::from("0.0.0.0"), 1, 0, false).unwrap();
    assert!(matches!(
        exchange.step(ExchangeEvent::Ready).unwrap(),
        ExchangeAction::Send(_)
    ));
    assert!(matches!(
        exchange.step(ExchangeEvent::Ready).unwrap(),
        ExchangeAction::Send(_)
    ));
    assert!(matches!(
        exchange.step(ExchangeEvent::Ready).unwrap(),
        ExchangeAction::ReadFrame
    ));
    match exchange.step(ExchangeEvent::Frame(to_proto_string("{}"))).unwrap() {
        ExchangeAction::Status(json) => assert_eq!(json, "{}"),
        other => panic!("expected the status text, got {:?}", other),
    }
    assert_eq!(exchange.step, ExchangeStep::Complete);
}

#[test]
fn exchange_rejects_a_long_address_before_sending() {
    let long = "a".repeat(256);
    assert!(matches!(
        Exchange::new(long, 25565, 0, false),
        Err(ExchangeError::AddressTooLong)
    ));
}
