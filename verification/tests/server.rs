use discrete_log_server::algo::{fast_power, PollardsLog, PollardsLogItem, PollardsRSAFact};
use discrete_log_server::server::broker::{prime_response, Action, Broker, CONFIDENCE_BITS};
use discrete_log_server::server::reader::{connect, on_frame};
use discrete_log_server::server::writer::{Wakeup, WriteJob};
use discrete_log_server::{
    BytesDeser, BytesSer, Event, Frame, ProtocolError, Response, ServerError,
};

/// A broker whose queues are plain names, with the given peers registered.
fn broker_with(peers: &[u128]) -> Broker<String> {
    let mut broker = Broker::new();
    for peer in peers {
        let event = Event::NewClient { peer_id: *peer, endpoint: format!("queue {}", peer) };
        let greeting = Action::Send { peer_id: *peer, response: Response::ConnectionOk };
        assert_eq!(broker.handle(event), Ok(greeting));
    }
    broker
}

#[test]
fn confidence_is_the_nearest_binary32() {
    assert_eq!((1.0f32 - f32::powi(0.25, 20)).to_bits(), CONFIDENCE_BITS);
    assert_eq!(f32::from_bits(CONFIDENCE_BITS), 1.0);
}

#[test]
fn broker_registers_new_clients() {
    let mut broker: Broker<String> = Broker::new();
    assert_eq!(broker.len(), 0);
    assert_eq!(broker.endpoint(7), None);
    let greeting = broker.handle(Event::NewClient { peer_id: 7, endpoint: "a".to_string() });
    assert_eq!(greeting, Ok(Action::Send { peer_id: 7, response: Response::ConnectionOk }));
    assert_eq!(broker.len(), 1);
    assert_eq!(broker.endpoint(7), Some(&"a".to_string()));
    // the same identifier again replaces the entry
    let again = broker.handle(Event::NewClient { peer_id: 7, endpoint: "b".to_string() });
    assert_eq!(again, Ok(Action::Send { peer_id: 7, response: Response::ConnectionOk }));
    assert_eq!(broker.len(), 1);
    assert_eq!(broker.endpoint(7), Some(&"b".to_string()));
}

#[test]
fn broker_harvest_leaves_no_entry() {
    let mut broker = broker_with(&[1, 2, 3]);
    assert_eq!(broker.harvest(2), Ok("queue 2".to_string()));
    assert_eq!(broker.endpoint(2), None);
    assert_eq!(broker.len(), 2);
    assert_eq!(broker.endpoint(1), Some(&"queue 1".to_string()));
    assert_eq!(broker.endpoint(3), Some(&"queue 3".to_string()));
    // a second harvest finds nothing, and still leaves nothing
    assert_eq!(broker.harvest(2), Err(ServerError::IllegalState { peer_id: 2 }));
    assert_eq!(broker.endpoint(2), None);
    assert_eq!(broker.len(), 2);
    // an event of the harvested peer is an error
    assert_eq!(
        broker.handle(Event::Quit { peer_id: 2 }),
        Err(ServerError::IllegalState { peer_id: 2 })
    );
}

#[test]
fn broker_refuses_events_of_unknown_peers() {
    let mut broker = broker_with(&[1]);
    let unknown = Err(ServerError::IllegalState { peer_id: 9 });
    assert_eq!(broker.handle(Event::Prime { peer_id: 9, p: 31 }), unknown);
    assert_eq!(broker.handle(Event::Log { peer_id: 9, g: 2, h: 3, p: 7 }), unknown);
    assert_eq!(broker.handle(Event::RSA { peer_id: 9, n: 15 }), unknown);
    assert_eq!(broker.handle(Event::Quit { peer_id: 9 }), unknown);
    assert_eq!(broker.len(), 1);
}

#[test]
fn broker_sends_primes_to_the_test() {
    let mut broker = broker_with(&[1]);
    assert_eq!(
        broker.handle(Event::Prime { peer_id: 1, p: 15239131 }),
        Ok(Action::TestPrime { peer_id: 1, p: 15239131 })
    );
    assert_eq!(
        broker.handle(Event::Prime { peer_id: 1, p: 3 }),
        Ok(Action::TestPrime { peer_id: 1, p: 3 })
    );
    // below 3 there is no base to draw
    for p in [0u64, 1] {
        let verdict = Action::Send { peer_id: 1, response: Response::NotPrime { p } };
        assert_eq!(broker.handle(Event::Prime { peer_id: 1, p }), Ok(verdict));
    }
    let two = Response::Prime { p: 2, prob_bits: CONFIDENCE_BITS };
    assert_eq!(
        broker.handle(Event::Prime { peer_id: 1, p: 2 }),
        Ok(Action::Send { peer_id: 1, response: two })
    );
    assert_eq!(broker.handle(Event::Quit { peer_id: 1 }), Ok(Action::Nothing));
    assert_eq!(broker.len(), 1);
}

#[test]
fn a_prime_is_reported_prime_with_its_confidence() {
    let mut broker = broker_with(&[1]);
    let p = match broker.handle(Event::Prime { peer_id: 1, p: 15239131 }) {
        Ok(Action::TestPrime { peer_id: 1, p }) => p,
        other => panic!("{:?}", other),
    };
    let verdict = discrete_log_server::algo::probably_prime(p);
    match prime_response(p, verdict) {
        Response::Prime { p: 15239131, prob_bits } => {
            let confidence = f32::from_bits(prob_bits) as f64;
            assert!((confidence - (1.0 - f64::powi(0.25, 20))).abs() < 1e-6);
        }
        other => panic!("{:?}", other),
    }
}

#[test]
fn broker_reports_verdicts() {
    assert_eq!(prime_response(31, true), Response::Prime { p: 31, prob_bits: CONFIDENCE_BITS });
    assert_eq!(prime_response(33, false), Response::NotPrime { p: 33 });
}

#[test]
fn broker_answers_with_walks() {
    let mut broker = broker_with(&[5]);
    match broker.handle(Event::Log { peer_id: 5, g: 3, h: 2, p: 7 }) {
        Ok(Action::Send { peer_id: 5, response: Response::Log { pollards } }) => {
            assert_eq!(pollards, PollardsLog::new(7, 3, 2));
        }
        other => panic!("{:?}", other),
    }
    match broker.handle(Event::RSA { peer_id: 5, n: 15 }) {
        Ok(Action::Send { peer_id: 5, response: Response::RSA { pollards } }) => {
            assert_eq!(pollards, PollardsRSAFact::new(15).unwrap());
        }
        other => panic!("{:?}", other),
    }
}

#[test]
fn broker_answers_moduli_that_admit_no_walk() {
    let mut broker = broker_with(&[5]);
    for p in [0u64, 1] {
        let none = Response::UnsuccessfulLog { g: 3, h: 2, p };
        assert_eq!(
            broker.handle(Event::Log { peer_id: 5, g: 3, h: 2, p }),
            Ok(Action::Send { peer_id: 5, response: none })
        );
    }
    for n in [0u64, (1 << 32) + 1, u64::MAX] {
        let none = Response::UnsuccessfulRSA { n };
        assert_eq!(
            broker.handle(Event::RSA { peer_id: 5, n }),
            Ok(Action::Send { peer_id: 5, response: none })
        );
    }
}

#[test]
fn reader_mints_random_identifiers() {
    let first = connect();
    let second = connect();
    // version 4, variant of RFC 4122
    for id in [first, second] {
        assert_eq!((id >> 76) & 0xf, 4);
        assert_eq!((id >> 62) & 0x3, 2);
    }
    assert_ne!(first, second);
}

#[test]
fn reader_turns_frames_into_events() {
    let log = Frame::Log { g: 3, h: 2, p: 7 }.serialize();
    match on_frame::<()>(11, &log) {
        Ok((Event::Log { peer_id: 11, g: 3, h: 2, p: 7 }, true)) => {}
        other => panic!("{:?}", other),
    }
    // the exponent of a public key stays behind
    let rsa = Frame::RSA { n: 15, e: 65537 }.serialize();
    match on_frame::<()>(11, &rsa) {
        Ok((Event::RSA { peer_id: 11, n: 15 }, true)) => {}
        other => panic!("{:?}", other),
    }
    let prime = Frame::Prime { p: 31 }.serialize();
    match on_frame::<()>(11, &prime) {
        Ok((Event::Prime { peer_id: 11, p: 31 }, true)) => {}
        other => panic!("{:?}", other),
    }
    // leave is reported, and ends the reading
    let quit = Frame::Quit.serialize();
    match on_frame::<()>(11, &quit) {
        Ok((Event::Quit { peer_id: 11 }, false)) => {}
        other => panic!("{:?}", other),
    }
}

#[test]
fn reader_refuses_unknown_tags() {
    for tag in [0u8, 5, 9, 255] {
        let mut bytes = Frame::Prime { p: 31 }.serialize();
        bytes[0] = tag;
        match on_frame::<()>(11, &bytes) {
            Err(e) => assert_eq!(e, ProtocolError::UnknownTag { tag }),
            other => panic!("{:?}", other),
        }
        assert_eq!(Frame::deserialize(&bytes), Err(ProtocolError::UnknownTag { tag }));
    }
}

#[test]
fn writer_stops_on_cancellation_and_fails_on_a_closed_queue() {
    assert_eq!(WriteJob::on_wakeup(3, Wakeup::Cancelled), Ok(None));
    assert_eq!(
        WriteJob::on_wakeup(3, Wakeup::Closed),
        Err(ServerError::ChannelReceive { peer_id: 3 })
    );
}

#[test]
fn writer_sends_plain_responses_as_one_frame() {
    for response in [
        Response::ConnectionOk,
        Response::NotPrime { p: 8 },
        Response::Prime { p: 31, prob_bits: CONFIDENCE_BITS },
    ] {
        let frame = response.serialize();
        let mut job = WriteJob::on_wakeup(3, Wakeup::Message { response }).unwrap().unwrap();
        assert_eq!(job, WriteJob::Send { frame });
        assert_eq!(job.progress(), None);
        assert_eq!(job.next_frame(0), Some(frame));
        assert_eq!(job, WriteJob::Idle);
        assert_eq!(job.next_frame(0), None);
    }
}

#[test]
fn writer_refuses_what_only_a_stream_may_give() {
    let item = PollardsLogItem { i: 1, xi: 3, ai: 1, bi: 0, yi: 2, gi: 2, di: 0 };
    let stray = [
        Response::LogItem { item },
        Response::SuccessfulLog { log: 2, g: 3, h: 2, p: 7, ratio_bits: 0 },
        Response::UnsuccessfulLog { g: 3, h: 2, p: 7 },
        Response::SuccessfulRSA { p: 3, q: 5, ratio_bits: 0 },
        Response::UnsuccessfulRSA { n: 15 },
    ];
    for response in stray {
        let copy = Response::deserialize(&response.serialize()).unwrap();
        assert_eq!(
            WriteJob::on_wakeup(3, Wakeup::Message { response }),
            Err(ServerError::IllegalResponse { peer_id: 3, response: copy })
        );
    }
}

/// All the frames of a job, with the ratio that a host would supply.
fn drain(job: &mut WriteJob) -> Vec<Response> {
    let mut out = Vec::new();
    loop {
        let ratio = match job.progress() {
            Some((steps, modulus)) => (steps as f64) / f64::sqrt(modulus as f64),
            None => 0.0,
        };
        match job.next_frame(ratio.to_bits()) {
            Some(frame) => out.push(Response::deserialize(&frame).unwrap()),
            None => return out,
        }
    }
}

#[test]
fn writer_streams_a_logarithm_in_order() {
    let response = Response::Log { pollards: PollardsLog::new(7, 3, 2) };
    let mut job = WriteJob::on_wakeup(3, Wakeup::Message { response }).unwrap().unwrap();
    assert_eq!(job.progress(), Some((0, 7)));
    let out = drain(&mut job);
    assert_eq!(job, WriteJob::Idle);
    let step = |i, t: (u64, u64, u64), h: (u64, u64, u64)| Response::LogItem {
        item: PollardsLogItem { i, xi: t.0, ai: t.1, bi: t.2, yi: h.0, gi: h.1, di: h.2 },
    };
    let ratio_bits = (4.0f64 / f64::sqrt(7.0)).to_bits();
    assert_eq!(
        out,
        vec![
            step(1, (3, 1, 0), (2, 2, 0)),
            step(2, (2, 2, 0), (1, 4, 1)),
            step(3, (4, 4, 0), (2, 4, 2)),
            step(4, (1, 4, 1), (1, 2, 5)),
            Response::SuccessfulLog { log: 2, g: 3, h: 2, p: 7, ratio_bits },
        ]
    );
}

#[test]
fn writer_streams_logarithms_to_their_solution() {
    for (p, g, h) in [(5011u64, 2u64, 2495u64), (17959, 17, 14226)] {
        let response = Response::Log { pollards: PollardsLog::new(p, g, h) };
        let mut job = WriteJob::on_wakeup(3, Wakeup::Message { response }).unwrap().unwrap();
        let out = drain(&mut job);
        let steps = out.len() - 1;
        for (k, record) in out.iter().enumerate() {
            match record {
                Response::LogItem { item } => {
                    assert!(k < steps);
                    assert_eq!(item.i, k as u64 + 1);
                    assert_eq!(item.xi == item.yi, k + 1 == steps);
                }
                Response::SuccessfulLog { log, g: base, h: value, p: modulus, ratio_bits } => {
                    assert_eq!(k, steps);
                    assert_eq!((*base, *value, *modulus), (g, h, p));
                    assert_eq!(fast_power(g, *log, p), h);
                    let ratio = (steps as f64) / f64::sqrt(p as f64);
                    assert_eq!(f64::from_bits(*ratio_bits), ratio);
                }
                other => panic!("{:?}", other),
            }
        }
    }
}

#[test]
fn writer_ends_an_unsolved_logarithm_with_its_summary() {
    // 3 is no power of 2 modulo 7
    let response = Response::Log { pollards: PollardsLog::new(7, 2, 3) };
    let mut job = WriteJob::on_wakeup(3, Wakeup::Message { response }).unwrap().unwrap();
    let out = drain(&mut job);
    assert_eq!(out.last(), Some(&Response::UnsuccessfulLog { g: 2, h: 3, p: 7 }));
    for record in &out[..out.len() - 1] {
        assert!(matches!(record, Response::LogItem { .. }));
    }
}

#[test]
fn writer_streams_a_factorization_in_order() {
    let response = Response::RSA { pollards: PollardsRSAFact::new(9409613).unwrap() };
    let mut job = WriteJob::on_wakeup(3, Wakeup::Message { response }).unwrap().unwrap();
    assert_eq!(job.progress(), Some((0, 9409613)));
    let out = drain(&mut job);
    assert_eq!(out.len(), 35);
    for (k, record) in out[..34].iter().enumerate() {
        match record {
            Response::RSAItem { item } => {
                assert_eq!((item.i, item.n), (k as u64 + 1, 9409613));
                assert_eq!(item.g > 1, k == 33);
            }
            other => panic!("{:?}", other),
        }
    }
    let ratio_bits = (34.0f64 / f64::sqrt(9409613.0)).to_bits();
    assert_eq!(out[34], Response::SuccessfulRSA { p: 541, q: 17393, ratio_bits });
}

#[test]
fn writer_ends_an_unsplit_modulus_with_its_summary() {
    let response = Response::RSA { pollards: PollardsRSAFact::new(7).unwrap() };
    let mut job = WriteJob::on_wakeup(3, Wakeup::Message { response }).unwrap().unwrap();
    let out = drain(&mut job);
    assert_eq!(out.len(), 3);
    assert!(matches!(out[0], Response::RSAItem { .. }));
    assert!(matches!(out[1], Response::RSAItem { .. }));
    assert_eq!(out[2], Response::UnsuccessfulRSA { n: 7 });
}

#[test]
fn responses_are_read_back_from_their_frames() {
    let item = PollardsLogItem {
        i: u64::MAX,
        xi: 0x0102_0304_0506_0708,
        ai: 1 << 63,
        bi: 0,
        yi: 0xff,
        gi: 0xff00,
        di: 0xdead_beef,
    };
    let all = [
        Response::ConnectionOk,
        Response::NotPrime { p: u64::MAX },
        Response::Prime { p: 31, prob_bits: f32::to_bits(0.9942) },
        Response::Prime { p: 31, prob_bits: u32::MAX },
        Response::LogItem { item },
        Response::SuccessfulLog { log: 1, g: 2, h: 3, p: 4, ratio_bits: f64::to_bits(0.75) },
        Response::UnsuccessfulLog { g: 2, h: 3, p: 4 },
        Response::SuccessfulRSA { p: 541, q: 17393, ratio_bits: u64::MAX },
        Response::UnsuccessfulRSA { n: 7 },
    ];
    for response in all {
        let frame = response.serialize();
        assert_eq!(frame.len(), 57);
        assert_eq!(Response::deserialize(&frame), Ok(response));
    }
}

#[test]
fn responses_with_unknown_tags_are_refused() {
    for tag in [0u8, 10, 200] {
        let mut frame = Response::ConnectionOk.serialize();
        frame[0] = tag;
        assert_eq!(Response::deserialize(&frame), Err(ProtocolError::UnknownTag { tag }));
    }
}
