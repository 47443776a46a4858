use discrete_log_server::algo::{PollardsLog, PollardsLogItem, PollardsRSAFactItem};
use discrete_log_server::client::input::{read_client_input, read_number, read_u64, Echo, Key};
use discrete_log_server::client::interface::{Display, Entry, Opening, Outcome};
use discrete_log_server::{AsBytes, ClientError, Frame, Interface, Response};

fn chars(text: &str) -> Vec<char> {
    text.chars().collect()
}

#[test]
fn frames_as_bytes() {
    let bytes = Frame::Log { g: 3, h: 2, p: 7 }.as_bytes();
    assert_eq!(bytes.len(), 25);
    assert_eq!(&bytes[..2], &[1, 3]);
    assert_eq!((bytes[9], bytes[17]), (2, 7));
    assert_eq!(bytes.iter().filter(|b| **b != 0).count(), 4);
    assert_eq!(Frame::Quit.as_bytes().len(), 25);
}

#[test]
fn frame_fields_are_folded_in_by_exclusive_or() {
    let mut tag = [0u8; 25];
    Frame::serialize_8_bytes(&mut tag, 1, 0x0807_0605_0403_0201);
    assert_eq!(&tag[..10], &[0, 1, 2, 3, 4, 5, 6, 7, 8, 0]);
    // a second value on the same bytes is combined with the first
    Frame::serialize_8_bytes(&mut tag, 1, 0x0807_0605_0403_0200);
    assert_eq!(&tag[..10], &[0, 1, 0, 0, 0, 0, 0, 0, 0, 0]);
    Frame::serialize_8_bytes(&mut tag, 17, u64::MAX);
    assert_eq!(&tag[16..], &[0, 255, 255, 255, 255, 255, 255, 255, 255]);

    let mut val = 0u64;
    Frame::deserialize_8_bytes(&tag, 17, &mut val);
    assert_eq!(val, u64::MAX);
    Frame::deserialize_8_bytes(&tag, 1, &mut val);
    assert_eq!(val, u64::MAX ^ 1);
    let mut low = 0u64;
    Frame::deserialize_8_bytes(&tag, 0, &mut low);
    assert_eq!(low, 0x100);
}

#[test]
fn keystrokes_build_a_line() {
    let mut line = Vec::new();
    assert_eq!(read_client_input(&mut line, Key::Char('1')), Echo::Put { c: '1', at: 0 });
    assert_eq!(read_client_input(&mut line, Key::Char('x')), Echo::Put { c: 'x', at: 1 });
    assert_eq!(read_client_input(&mut line, Key::Other), Echo::Nothing);
    assert_eq!(line, chars("1x"));
    assert_eq!(read_client_input(&mut line, Key::Backspace), Echo::Erase);
    assert_eq!(read_client_input(&mut line, Key::Char('7')), Echo::Put { c: '7', at: 1 });
    assert_eq!(line, chars("17"));
    // Enter finishes the line and is no part of it
    assert_eq!(read_client_input(&mut line, Key::Char('\n')), Echo::Submit);
    assert_eq!(line, chars("17"));
    assert_eq!(read_client_input(&mut line, Key::Backspace), Echo::Erase);
    assert_eq!(read_client_input(&mut line, Key::Backspace), Echo::Erase);
    // there is nothing left to take off
    assert_eq!(read_client_input(&mut line, Key::Backspace), Echo::Nothing);
    assert!(line.is_empty());
}

#[test]
fn lines_that_write_a_number() {
    assert_eq!(read_u64(&chars("0")), Some(0));
    assert_eq!(read_u64(&chars("15239131")), Some(15239131));
    assert_eq!(read_u64(&chars("+42")), Some(42));
    assert_eq!(read_u64(&chars("007")), Some(7));
    assert_eq!(read_u64(&chars("12\n")), Some(12));
    assert_eq!(read_u64(&chars("12\n\n")), Some(12));
    assert_eq!(read_u64(&chars("18446744073709551615")), Some(u64::MAX));
    assert_eq!(read_u64(&chars("00018446744073709551615")), Some(u64::MAX));
}

#[test]
fn a_whole_line_is_a_number_only_without_a_newline() {
    assert_eq!(read_number(&chars("12")), Some(12));
    assert_eq!(read_number(&chars("+12")), Some(12));
    assert_eq!(read_number(&chars("12\n")), None);
    assert_eq!(read_number(&chars("")), None);
    assert_eq!(read_number(&chars("18446744073709551615")), Some(u64::MAX));
    assert_eq!(read_number(&chars("18446744073709551616")), None);
}

#[test]
fn lines_that_write_no_number() {
    for text in [
        "", "\n", "+", "+\n", "-5", "- 5", "1 2", " 12", "12 ", "1_000", "0x10", "12a", "a12",
        "1.5", "++1", "18446744073709551616", "99999999999999999999999", "\n12", "٣", "q",
    ] {
        assert_eq!(read_u64(&chars(text)), None, "{:?}", text);
        assert_eq!(read_u64(&chars(text)), text.trim_end_matches('\n').parse::<u64>().ok());
    }
}

#[test]
fn screens_take_their_turn_to_listen() {
    assert_eq!(Interface::new(), Interface::Init);
    assert_eq!(Interface::Init.opening(), Ok(Opening::Await));
    assert_eq!(Interface::Home.opening(), Ok(Opening::Menu));
    assert_eq!(Interface::Prime.opening(), Ok(Opening::Await));
    assert_eq!(Interface::Log.opening(), Ok(Opening::Table));
    assert_eq!(Interface::RSA.opening(), Ok(Opening::Table));
    for state in [Interface::Quit, Interface::ReturnHome] {
        assert_eq!(state.opening(), Err(ClientError::InterfaceState(state)));
    }
}

fn samples() -> Vec<Response> {
    let item = PollardsLogItem { i: 1, xi: 3, ai: 1, bi: 0, yi: 2, gi: 2, di: 0 };
    let step = PollardsRSAFactItem { i: 1, xi: 2, yi: 5, g: 3, n: 15 };
    vec![
        Response::ConnectionOk,
        Response::NotPrime { p: 8 },
        Response::Prime { p: 31, prob_bits: 0 },
        Response::Log { pollards: PollardsLog::new(7, 3, 2) },
        Response::LogItem { item },
        Response::SuccessfulLog { log: 2, g: 3, h: 2, p: 7, ratio_bits: 0 },
        Response::UnsuccessfulLog { g: 3, h: 2, p: 7 },
        Response::RSAItem { item: step },
        Response::SuccessfulRSA { p: 3, q: 5, ratio_bits: 0 },
        Response::UnsuccessfulRSA { n: 15 },
    ]
}

/// What each screen makes of each of the sample responses, by their places.
fn expect(state: Interface, place: usize) -> Result<(Interface, Display), ClientError> {
    let row = |highlight| Display::Row { highlight };
    match (state, place) {
        (Interface::Init, 0) => Ok((Interface::Home, Display::Menu)),
        (Interface::Prime, 1) | (Interface::Prime, 2) => {
            Ok((Interface::ReturnHome, Display::Verdict))
        }
        (Interface::Log, 4) => Ok((Interface::Log, row(false))),
        (Interface::Log, 5) | (Interface::Log, 6) => Ok((Interface::ReturnHome, Display::Summary)),
        (Interface::RSA, 7) => Ok((Interface::RSA, row(false))),
        (Interface::RSA, 8) | (Interface::RSA, 9) => Ok((Interface::ReturnHome, Display::Summary)),
        (Interface::Init | Interface::Prime | Interface::Log | Interface::RSA, _) => {
            Err(ClientError::IllegalResponse)
        }
        (other, _) => Err(ClientError::InterfaceState(other)),
    }
}

#[test]
fn screens_move_on_responses() {
    let all = [
        Interface::Init,
        Interface::Home,
        Interface::Quit,
        Interface::Prime,
        Interface::Log,
        Interface::RSA,
        Interface::ReturnHome,
    ];
    for state in all {
        for (place, response) in samples().iter().enumerate() {
            assert_eq!(state.receive_response(response), expect(state, place), "{:?}", state);
        }
    }
}

#[test]
fn the_row_on_which_the_walk_ends_is_highlighted() {
    let item = PollardsLogItem { i: 4, xi: 1, ai: 4, bi: 1, yi: 1, gi: 2, di: 5 };
    assert_eq!(
        Interface::Log.receive_response(&Response::LogItem { item }),
        Ok((Interface::Log, Display::Row { highlight: true }))
    );
}

fn typed(state: Interface, entry: Entry, text: &str) -> (Interface, Entry, Outcome) {
    state.parse_request(entry, &chars(text)).unwrap()
}

#[test]
fn the_menu_takes_its_keys() {
    let home = Interface::Home;
    let send = |frame| Outcome::Send { frame };
    for text in ["q", "Q"] {
        assert_eq!(
            typed(home, Entry::Command, text),
            (Interface::Quit, Entry::Command, send(Frame::Quit))
        );
    }
    assert_eq!(
        typed(home, Entry::Command, "15239131"),
        (Interface::Prime, Entry::Command, send(Frame::Prime { p: 15239131 }))
    );
    assert_eq!(
        typed(home, Entry::Command, "+7"),
        (Interface::Prime, Entry::Command, send(Frame::Prime { p: 7 }))
    );
    for text in ["l", "L"] {
        assert_eq!(typed(home, Entry::Command, text), (home, Entry::LogBase, Outcome::Ask));
    }
    for text in ["r", "R"] {
        assert_eq!(typed(home, Entry::Command, text), (home, Entry::RsaModulus, Outcome::Ask));
    }
    for text in ["", "x", "-5", "qq", "l r", "quit", " q", "18446744073709551616", "7\n"] {
        assert_eq!(typed(home, Entry::Command, text), (home, Entry::Command, Outcome::Warn));
    }
}

#[test]
fn a_logarithm_is_asked_for_operand_by_operand() {
    let home = Interface::Home;
    assert_eq!(typed(home, Entry::LogBase, "3"), (home, Entry::LogValue { g: 3 }, Outcome::Ask));
    assert_eq!(
        typed(home, Entry::LogValue { g: 3 }, "2"),
        (home, Entry::LogPrime { g: 3, h: 2 }, Outcome::Ask)
    );
    assert_eq!(
        typed(home, Entry::LogPrime { g: 3, h: 2 }, "7"),
        (Interface::Log, Entry::Command, Outcome::Send { frame: Frame::Log { g: 3, h: 2, p: 7 } })
    );
    // a line that is no number is asked for again; a menu key is none
    for entry in [Entry::LogBase, Entry::LogValue { g: 3 }, Entry::LogPrime { g: 3, h: 2 }] {
        for text in ["", "q", "l", "-1", "three"] {
            assert_eq!(typed(home, entry, text), (home, entry, Outcome::Warn));
        }
    }
}

#[test]
fn a_factorization_is_asked_for_operand_by_operand() {
    let home = Interface::Home;
    assert_eq!(
        typed(home, Entry::RsaModulus, "9409613"),
        (home, Entry::RsaExponent { n: 9409613 }, Outcome::Ask)
    );
    assert_eq!(
        typed(home, Entry::RsaExponent { n: 9409613 }, "65537"),
        (
            Interface::RSA,
            Entry::Command,
            Outcome::Send { frame: Frame::RSA { n: 9409613, e: 65537 } }
        )
    );
    for entry in [Entry::RsaModulus, Entry::RsaExponent { n: 15 }] {
        assert_eq!(typed(home, entry, "r"), (home, entry, Outcome::Warn));
    }
}

#[test]
fn any_line_leads_back_to_the_menu() {
    for text in ["", "q", "17", "anything"] {
        assert_eq!(
            typed(Interface::ReturnHome, Entry::Command, text),
            (Interface::Home, Entry::Command, Outcome::Clear)
        );
    }
}

#[test]
fn screens_that_take_no_input() {
    for state in
        [Interface::Init, Interface::Quit, Interface::Prime, Interface::Log, Interface::RSA]
    {
        assert_eq!(
            state.parse_request(Entry::Command, &chars("q")),
            Err(ClientError::InterfaceState(state))
        );
    }
}
