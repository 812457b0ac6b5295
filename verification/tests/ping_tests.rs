use rwr_toolbox::ping::parse_unix_ping;
use rwr_toolbox::ping::parse_windows_ping;

#[test]
fn test_parse_windows_ping() {
    let output = "Pinging 192.168.1.1 with 32 bytes of data:\nReply from 192.168.1.1: bytes=32 time=23ms TTL=64\nReply from 192.168.1.1: bytes=32 time=45ms TTL=64";
    assert_eq!(parse_windows_ping(output).unwrap(), 23);
}

#[test]
fn test_parse_windows_ping_failure() {
    let output = "Ping request could not find host";
    let err = parse_windows_ping(output).unwrap_err();
    assert_eq!(
        err,
        "Could not parse ping time from output. Preview:\nPing request could not find host"
    );
}

#[test]
fn ping_failure_preview_keeps_first_three_lines() {
    let output = "one\r\ntwo\nthree\nfour\n";
    let err = parse_windows_ping(output).unwrap_err();
    assert_eq!(
        err,
        "Could not parse ping time from output. Preview:\none\ntwo\nthree"
    );
}

#[test]
fn test_parse_unix_ping_macos() {
    let output = "PING example.com (192.168.1.1): 56 data bytes\n64 bytes from 192.168.1.1: icmp_seq=0 ttl=64 time=23.4 ms";
    assert_eq!(parse_unix_ping(output).unwrap(), 23);
}

#[test]
fn test_parse_unix_ping_linux() {
    let output = "PING example.com (192.168.1.1) 56(84) bytes of data.\n64 bytes from 192.168.1.1: icmp_seq=1 ttl=64 time=45.6 ms";
    assert_eq!(parse_unix_ping(output).unwrap(), 45);
}

#[test]
fn test_parse_unix_ping_failure() {
    let output = "ping: cannot resolve example.com: Unknown host";
    let err = parse_unix_ping(output).unwrap_err();
    assert_eq!(
        err,
        "Could not parse ping time from output. Preview:\nping: cannot resolve example.com: Unknown host"
    );
}
