use discrete_log_server::algo::{PollardsLogItem, PollardsRSAFactItem};
use discrete_log_server::{BytesDeser, BytesSer, Frame, Response};

/// A request frame that is zero but for the given runs of bytes.
fn request(runs: &[(usize, &[u8])]) -> [u8; 25] {
    let mut tag = [0u8; 25];
    for (at, bytes) in runs {
        tag[*at..*at + bytes.len()].copy_from_slice(bytes);
    }
    tag
}

/// A response frame that is zero but for the given runs of bytes.
fn response(runs: &[(usize, &[u8])]) -> [u8; 57] {
    let mut tag = [0u8; 57];
    for (at, bytes) in runs {
        tag[*at..*at + bytes.len()].copy_from_slice(bytes);
    }
    tag
}

/// The frames under test, each with the bytes expected of it.
fn request_cases() -> Vec<(Frame, [u8; 25])> {
    vec![
        (Frame::Log { g: 3, h: 2, p: 7 }, request(&[(0, &[1, 3]), (9, &[2]), (17, &[7])])),
        (
            Frame::Log { g: 627, h: 390, p: 941 },
            request(&[(0, &[1, 115, 2]), (9, &[134, 1]), (17, &[173, 3])]),
        ),
        (
            Frame::RSA { n: 1794677960, e: 525734818 },
            request(&[(0, &[2, 200, 156, 248, 106]), (9, &[162, 19, 86, 31])]),
        ),
        (
            Frame::RSA { n: 38749709, e: 10988423 },
            request(&[(0, &[2, 13, 70, 79, 2]), (9, &[135, 171, 167])]),
        ),
        (Frame::Prime { p: 15239131 }, request(&[(0, &[3, 219, 135, 232])])),
        (Frame::Quit, request(&[(0, &[4])])),
    ]
}

#[test]
fn serialize_frame_should_work() {
    let cases = request_cases();
    assert_eq!(cases.len(), 6);
    for (frame, expected) in cases {
        let tag = frame.serialize();
        println!("{:?}", tag);
        assert_eq!(tag, expected);
    }
}

#[test]
fn deserialize_frame_should_work() {
    let cases = request_cases();
    assert_eq!(cases.len(), 6);
    for (frame, expected) in cases {
        let tag = frame.serialize();
        println!("{:?}", tag);
        assert_eq!(tag, expected);

        let deserialized_frame = Frame::deserialize(&tag).unwrap();
        println!("{:?}", deserialized_frame);
        assert_eq!(deserialized_frame, frame);
    }
}

#[test]
fn serialize_response_should_work() {
    let item = PollardsLogItem { i: 3, xi: 127, yi: 64, ai: 128, bi: 32, gi: 55, di: 89 };
    let step = PollardsRSAFactItem { i: 1, xi: 2, yi: 3, g: 1, n: 15 };
    let cases: Vec<(Response, [u8; 57])> = vec![
        (Response::ConnectionOk, response(&[(0, &[1])])),
        (Response::NotPrime { p: 8 }, response(&[(0, &[2, 8])])),
        (
            Response::Prime { p: 31, prob_bits: f32::to_bits(0.9942) },
            response(&[(0, &[3, 31]), (9, &[228, 131, 126, 63])]),
        ),
        (
            Response::LogItem { item },
            response(&[
                (0, &[4, 3]),
                (9, &[127]),
                (17, &[128]),
                (25, &[32]),
                (33, &[64]),
                (41, &[55]),
                (49, &[89]),
            ]),
        ),
        (
            Response::SuccessfulLog { log: 11, g: 2, h: 63, p: 71, ratio_bits: f64::to_bits(0.0) },
            response(&[(0, &[5, 11]), (9, &[2]), (17, &[63]), (25, &[71])]),
        ),
        (
            Response::UnsuccessfulLog { g: 2, h: 63, p: 71 },
            response(&[(0, &[6, 2]), (9, &[63]), (17, &[71])]),
        ),
        (
            Response::RSAItem { item: step },
            response(&[(0, &[7, 1]), (9, &[2]), (17, &[3]), (25, &[1]), (33, &[15])]),
        ),
        (
            Response::SuccessfulRSA { p: 3, q: 5, ratio_bits: f64::to_bits(0.0) },
            response(&[(0, &[8, 3]), (9, &[5])]),
        ),
        (Response::UnsuccessfulRSA { n: 15 }, response(&[(0, &[9, 15])])),
    ];
    assert_eq!(cases.len(), 9);
    for (value, expected) in cases {
        let tag = value.serialize();
        println!("{:?}", tag);
        assert_eq!(tag, expected);
    }
}
