use spoolease::my_ftp::{decode_control_response, parse_pasv, ControlResponse, Error, LoginStep, MyFtps, ReplyReader};
use spoolease::net::Ipv4Address;

fn answer(code: i32) -> Result<ControlResponse, Error> {
    Ok(ControlResponse { code, string: format!("{code} text\r\n") })
}

#[test]
fn replies_are_read_however_they_are_cut() {
    let stream = b"220-first\r\n220 is not\r\nmore\r\n".to_vec();
    let several = b"220-first\r\nsecond\r\n221 no\r\n220 done\r\nrest".to_vec();
    for cut in 1..several.len() - 6 {
        let mut reader = ReplyReader::new();
        let mut got = reader.feed(&several[..cut]);
        if got.is_none() {
            got = reader.feed(&several[cut..]);
        }
        assert_eq!(got.unwrap().unwrap(), b"220-first\r\nsecond\r\n221 no\r\n220 done\r\n");
    }
    let mut reader = ReplyReader::new();
    assert_eq!(reader.feed(&stream).unwrap().unwrap(), b"220-first\r\n220 is not\r\n");
    let mut reader = ReplyReader::new();
    assert!(reader.feed(b"150 O").is_none());
    assert!(reader.feed(b"K\r").is_none());
    assert_eq!(reader.feed(b"\n226 ").unwrap().unwrap(), b"150 OK\r\n");
}

#[test]
fn broken_replies_are_refused() {
    assert!(matches!(ReplyReader::new().feed(b""), Some(Err(Error::UnexpectedEof))));
    assert!(matches!(ReplyReader::new().feed(b"2\r\n"), Some(Err(Error::InvalidResponse))));
    assert_eq!(ReplyReader::new().feed(b"22\r\n").unwrap().unwrap(), b"22\r\n");
    assert!(matches!(decode_control_response(b"abc def\r\n"), Err(Error::InvalidResponse)));
    assert!(matches!(decode_control_response(&[0xff, b' ']), Err(Error::InvalidResponse)));
    assert!(matches!(decode_control_response(b"220-first\r\n220 done\r\n"), Err(Error::InvalidResponse)));
    let r = decode_control_response(b"331 Password please\r\n").unwrap();
    assert_eq!((r.code, r.string.as_str()), (331, "331 Password please\r\n"));
}

#[test]
fn passive_address_is_read() {
    let (ip, port) = parse_pasv("227 Entering Passive Mode (192,168,1,20,195,80).").unwrap();
    assert_eq!(ip, Ipv4Address { a: 192, b: 168, c: 1, d: 20 });
    assert_eq!(port, 195 * 256 + 80);
    assert!(parse_pasv("( 1, 2 ,3,4,5,6)").is_ok());
    assert!(parse_pasv("(1,2,x,3,4,5,6)").is_ok());
    assert!(matches!(parse_pasv("(1,2,3,4,5)"), Err(Error::InvalidResponse)));
    assert!(matches!(parse_pasv("(1,2,3,4,5,256)"), Err(Error::InvalidResponse)));
    assert!(matches!(parse_pasv("1,2,3,4,5,6)"), Err(Error::InvalidResponse)));
    assert!(matches!(parse_pasv("(1,2,3,4,5,6"), Err(Error::InvalidResponse)));
}

#[test]
fn commands_end_their_lines() {
    assert_eq!(MyFtps::user_command("bblp"), "USER bblp\r\n");
    assert_eq!(MyFtps::pass_command("12345678"), "PASS 12345678\r\n");
    assert_eq!(MyFtps::retr_command("/cache/a.gcode"), "RETR /cache/a.gcode\r\n");
}

#[test]
fn login_follows_the_codes() {
    assert_eq!(MyFtps::login_user(230), Some(LoginStep::LoggedIn));
    assert_eq!(MyFtps::login_user(331), Some(LoginStep::PasswordNeeded));
    assert_eq!(MyFtps::login_user(530), None);
    assert!(matches!(MyFtps::login(answer(230), Err(Error::Tls)), Ok(true)));
    assert!(matches!(MyFtps::login(answer(331), answer(230)), Ok(true)));
    assert!(matches!(MyFtps::login(answer(331), answer(530)), Ok(false)));
    assert!(matches!(MyFtps::login(answer(331), Err(Error::UnexpectedEof)), Err(Error::UnexpectedEof)));
    assert!(matches!(MyFtps::login(Err(Error::Tls), answer(230)), Err(Error::Tls)));
    assert!(matches!(MyFtps::login(answer(331), answer(421)), Err(Error::Ftp { response }) if response.code == 331));
    assert!(matches!(MyFtps::login(answer(500), answer(230)), Err(Error::Ftp { response }) if response.code == 500));
}

#[test]
fn session_is_kept_track_of() {
    let mut ftps = MyFtps::new(Ipv4Address { a: 10, b: 0, c: 0, d: 1 }, 990, "serial".to_string());
    assert!(matches!(ftps.can_read(), Err(Error::Usage { reason }) if reason == "read_control_response called w/o session"));
    assert!(!ftps.close());
    assert!(ftps.connect(answer(220)).is_ok());
    assert!(ftps.can_read().is_ok());
    assert!(ftps.retrieve_started(answer(150)).is_ok());
    assert!(ftps.can_read().is_err());
    assert!(matches!(ftps.connect(answer(421)), Err(Error::Ftp { response }) if response.code == 421));
    assert!(ftps.close());
    assert!(matches!(ftps.retrieve_started(answer(550)), Err(Error::Ftp { response }) if response.code == 550));
}

#[test]
fn other_answers_are_told_apart() {
    assert!(matches!(MyFtps::quit(answer(221)), Ok(true)));
    assert!(matches!(MyFtps::quit(answer(220)), Err(Error::Ftp { .. })));
    assert!(matches!(MyFtps::noop(answer(220)), Ok(true)));
    assert!(matches!(MyFtps::noop(answer(200)), Err(Error::Ftp { response }) if response.code == 200));
    assert!(MyFtps::complete_retrieve(answer(226)).is_ok());
    assert!(MyFtps::complete_retrieve(answer(150)).is_err());
    let passive = ControlResponse { code: 227, string: "227 ok (1,2,3,4,0,21)\r\n".to_string() };
    assert!(matches!(MyFtps::start_retrieve(Ok(passive)), Ok((_, 21))));
    assert!(matches!(MyFtps::start_retrieve(answer(500)), Err(Error::Ftp { response }) if response.code == 500));
    assert!(matches!(MyFtps::start_retrieve(answer(227)), Err(Error::InvalidResponse)));
    assert!(matches!(MyFtps::start_retrieve(Err(Error::Connect)), Err(Error::Connect)));
}
