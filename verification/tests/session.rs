use pico_w_display::protocol::{Command, ProtocolError};
use pico_w_display::session::{respond, Line, LineReader, Reply, Response, Session};

fn feed_all(s: &mut Session, bytes: &[u8]) -> Vec<Response> {
    let mut out = Vec::new();
    for &b in bytes {
        if let Some(r) = s.on_byte(b) {
            if let Response::Apply(_) = r {
                assert_eq!(s.on_applied(), Reply::Applied);
            }
            out.push(r);
        }
    }
    out
}

#[test]
fn each_line_ending_gives_one_response() {
    for ending in [&b"\n"[..], &b"\r"[..], &b"\r\n"[..], &b"\n\r"[..]] {
        let mut s = Session::new();
        let mut bytes = b"CLOCK".to_vec();
        bytes.extend_from_slice(ending);
        bytes.extend_from_slice(b"FOO");
        bytes.extend_from_slice(ending);
        let out = feed_all(&mut s, &bytes);
        assert_eq!(
            out,
            vec![
                Response::Apply(Command::Clock),
                Response::Reply(Reply::Error(ProtocolError::UnknownCommand))
            ]
        );
    }
}

#[test]
fn blank_lines_are_ignored() {
    let mut s = Session::new();
    assert!(feed_all(&mut s, b"\r\n\n\r\r").is_empty());
}

#[test]
fn thirty_two_bytes_fit_in_a_line() {
    let mut s = Session::new();
    let mut line = b"BRIGHTNESS".to_vec();
    line.extend(std::iter::repeat(b' ').take(19));
    line.extend_from_slice(b"200");
    assert_eq!(line.len(), 32);
    line.push(b'\n');
    assert_eq!(feed_all(&mut s, &line), vec![Response::Apply(Command::Brightness(200))]);
}

#[test]
fn longer_lines_are_refused_unparsed() {
    let mut s = Session::new();
    let mut line = b"CLOCK".to_vec();
    line.extend(std::iter::repeat(b' ').take(28));
    assert_eq!(line.len(), 33);
    line.push(b'\r');
    line.extend_from_slice(b"CLOCK\r");
    assert_eq!(
        feed_all(&mut s, &line),
        vec![Response::Reply(Reply::LineTooLong), Response::Apply(Command::Clock)]
    );
}

#[test]
fn non_ascii_bytes_take_two_bytes_of_the_line() {
    let mut r = LineReader::new();
    for _ in 0..16 {
        assert_eq!(r.feed(0xe9), None);
    }
    assert_eq!(r.line().len(), 32);
    assert_eq!(r.feed(b'\n'), Some(Line::Ready));
    r.reset();
    for _ in 0..16 {
        r.feed(0xe9);
    }
    r.feed(b'a');
    assert_eq!(r.feed(b'a'), None);
    assert_eq!(r.feed(b'\n'), Some(Line::TooLong));
}

#[test]
fn reader_keeps_the_line_until_reset() {
    let mut r = LineReader::new();
    for &b in b"TEXT 12:34" {
        assert_eq!(r.feed(b), None);
    }
    assert_eq!(r.feed(b'\r'), Some(Line::Ready));
    assert_eq!(r.line(), "TEXT 12:34");
    r.reset();
    assert_eq!(r.line(), "");
    assert_eq!(r.feed(b'\n'), None);
}

#[test]
fn respond_maps_outcomes() {
    assert_eq!(respond(Line::TooLong, "CLOCK"), Response::Reply(Reply::LineTooLong));
    match respond(Line::Ready, "TEXT 12:34") {
        Response::Apply(Command::Text(t)) => assert_eq!(t.text(), "12:34"),
        other => panic!("unexpected {:?}", other),
    }
    assert_eq!(
        respond(Line::Ready, "TEXT 1:234"),
        Response::Reply(Reply::Error(ProtocolError::UnsupportedChar))
    );
}

#[test]
fn replies_are_single_lines() {
    assert_eq!(Reply::Applied.text(), "OK\n");
    assert_eq!(Reply::LineTooLong.text(), "ERR line too long\n");
    assert_eq!(Reply::Error(ProtocolError::UnknownCommand).text(), "ERR unknown command\n");
    assert_eq!(Reply::Error(ProtocolError::BadArgs).text(), "ERR bad args\n");
    assert_eq!(Reply::Error(ProtocolError::UnsupportedChar).text(), "ERR unsupported char\n");
}

#[test]
fn line_endings_alike_mid_stream() {
    let mut outs = Vec::new();
    for stream in [&b"CLOCK\nCOLOR 00ff00\nBRIGHTNESS 3\n"[..], &b"CLOCK\r\nCOLOR 00ff00\rBRIGHTNESS 3\n\r"[..]] {
        let mut s = Session::new();
        outs.push(feed_all(&mut s, stream));
    }
    assert_eq!(outs[0], outs[1]);
    assert_eq!(outs[0].len(), 3);
}
