use plinko::cli::{parse_port_arg, parse_u16};

fn args(v: &[&str]) -> Vec<String> {
    v.iter().map(|s| s.to_string()).collect()
}

#[test]
fn port_from_separate_flag() {
    assert_eq!(parse_port_arg(&args(&["plinko", "-p", "8080"])), Some(8080));
    assert_eq!(parse_port_arg(&args(&["plinko", "x", "-p", "+80"])), Some(80));
}

#[test]
fn port_from_joined_flag() {
    assert_eq!(parse_port_arg(&args(&["plinko", "-p9000"])), Some(9000));
    assert_eq!(parse_port_arg(&args(&["plinko", "-pxyz", "-p", "1"])), None);
}

#[test]
fn port_missing_or_invalid() {
    assert_eq!(parse_port_arg(&args(&["plinko"])), None);
    assert_eq!(parse_port_arg(&args(&["plinko", "-p"])), None);
    assert_eq!(parse_port_arg(&args(&["plinko", "-p", "70000"])), None);
    assert_eq!(parse_port_arg(&args(&["-p", "5"])), None);
    assert_eq!(parse_port_arg(&args(&["plinko", "--port", "5"])), None);
}

#[test]
fn u16_parsing_matches_std() {
    for s in ["0", "65535", "65536", "+7", "+", "", "-1", "007", "1a", " 1", "99999999999"] {
        assert_eq!(parse_u16(s), s.parse::<u16>().ok(), "input {s:?}");
    }
}
