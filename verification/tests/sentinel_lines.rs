use port_handshake::sentinel::{classify_line, Reading};

#[test]
fn every_port_in_base_ten_reads_as_itself() {
    for port in 1..=65535u16 {
        assert_eq!(classify_line(&format!("PORT={}", port)), Reading::Port(port));
    }
}

#[test]
fn every_port_reads_as_itself_with_white_space_around_the_line() {
    for port in 1..=65535u16 {
        assert_eq!(classify_line(&format!(" \t PORT={}\r\n", port)), Reading::Port(port));
    }
}

#[test]
fn lowest_and_highest_port() {
    assert_eq!(classify_line("PORT=1"), Reading::Port(1));
    assert_eq!(classify_line("PORT=65535"), Reading::Port(65535));
}

#[test]
fn white_space_around_the_line_is_tolerated() {
    assert_eq!(classify_line("  PORT=8080  "), Reading::Port(8080));
    assert_eq!(classify_line("\tPORT=8080\n"), Reading::Port(8080));
    assert_eq!(classify_line("PORT=8080\r\n"), Reading::Port(8080));
    assert_eq!(classify_line("\u{3000}PORT=8080\u{a0}\u{2003}"), Reading::Port(8080));
}

#[test]
fn white_space_around_the_number_is_tolerated() {
    assert_eq!(classify_line("PORT= 8080"), Reading::Port(8080));
    assert_eq!(classify_line("PORT=\t8080 \n"), Reading::Port(8080));
    assert_eq!(classify_line(" PORT= 8080 "), Reading::Port(8080));
}

#[test]
fn plus_sign_and_leading_zeros() {
    assert_eq!(classify_line("PORT=+80"), Reading::Port(80));
    assert_eq!(classify_line("PORT=0080"), Reading::Port(80));
    assert_eq!(classify_line("PORT=+0065535"), Reading::Port(65535));
    assert_eq!(
        classify_line("PORT=000000000000000000000000000000000000000001"),
        Reading::Port(1)
    );
}

#[test]
fn port_zero_is_out_of_range() {
    assert_eq!(classify_line("PORT=0"), Reading::Malformed);
    assert_eq!(classify_line("PORT=000"), Reading::Malformed);
    assert_eq!(classify_line("PORT=+0"), Reading::Malformed);
}

#[test]
fn port_above_sixteen_bits_is_out_of_range() {
    assert_eq!(classify_line("PORT=65536"), Reading::Malformed);
    assert_eq!(classify_line("PORT=70000"), Reading::Malformed);
    assert_eq!(classify_line("PORT=4294967296"), Reading::Malformed);
    assert_eq!(classify_line("PORT=4294967297"), Reading::Malformed);
    assert_eq!(classify_line("PORT=99999999999999999999999999999999"), Reading::Malformed);
    assert_eq!(classify_line("PORT=0000000000000000000000065536"), Reading::Malformed);
}

#[test]
fn empty_number_is_malformed() {
    assert_eq!(classify_line("PORT="), Reading::Malformed);
    assert_eq!(classify_line("PORT=   "), Reading::Malformed);
    assert_eq!(classify_line("PORT=+"), Reading::Malformed);
    assert_eq!(classify_line("PORT=\n"), Reading::Malformed);
}

#[test]
fn non_numeric_remainder_is_malformed() {
    assert_eq!(classify_line("PORT=abc"), Reading::Malformed);
    assert_eq!(classify_line("PORT=-1"), Reading::Malformed);
    assert_eq!(classify_line("PORT=++1"), Reading::Malformed);
    assert_eq!(classify_line("PORT=80a"), Reading::Malformed);
    assert_eq!(classify_line("PORT=8 0"), Reading::Malformed);
    assert_eq!(classify_line("PORT=80 81"), Reading::Malformed);
    assert_eq!(classify_line("PORT=0x50"), Reading::Malformed);
    assert_eq!(classify_line("PORT=80.0"), Reading::Malformed);
    assert_eq!(classify_line("PORT=PORT=80"), Reading::Malformed);
    assert_eq!(classify_line("PORT=\u{ff18}\u{ff10}"), Reading::Malformed);
    assert_eq!(classify_line("PORT=\u{0668}\u{0660}"), Reading::Malformed);
    assert_eq!(classify_line("PORT=/"), Reading::Malformed);
    assert_eq!(classify_line("PORT=:"), Reading::Malformed);
}

#[test]
fn lines_without_the_prefix_are_other() {
    assert_eq!(classify_line(""), Reading::Other);
    assert_eq!(classify_line("   \n"), Reading::Other);
    assert_eq!(classify_line("noise"), Reading::Other);
    assert_eq!(classify_line("more noise\n"), Reading::Other);
    assert_eq!(classify_line("PORT"), Reading::Other);
    assert_eq!(classify_line("PORT 80"), Reading::Other);
    assert_eq!(classify_line("PORT =80"), Reading::Other);
    assert_eq!(classify_line("port=80"), Reading::Other);
    assert_eq!(classify_line("Port=80"), Reading::Other);
    assert_eq!(classify_line("XPORT=80"), Reading::Other);
    assert_eq!(classify_line("listening on PORT=80"), Reading::Other);
    assert_eq!(classify_line("P ORT=80"), Reading::Other);
    assert_eq!(classify_line("PORT\u{ff1d}80"), Reading::Other);
}

#[test]
fn zero_width_space_is_no_white_space() {
    assert_eq!(classify_line("\u{200b}PORT=80"), Reading::Other);
    assert_eq!(classify_line("PORT=80\u{200b}"), Reading::Malformed);
}

fn by_std(line: &str) -> Reading {
    match line.trim().strip_prefix("PORT=") {
        None => Reading::Other,
        Some(rest) => match rest.trim().parse::<u16>() {
            Ok(0) | Err(_) => Reading::Malformed,
            Ok(port) => Reading::Port(port),
        },
    }
}

#[test]
fn reading_agrees_with_trim_strip_prefix_and_parse() {
    let prefixes = ["", " ", "\t", "\n", "\u{2028}", "x", "PORT", "PORT=", " PORT=", "PORT= ", "PORT=+", "PORT=-", "PORT=0"];
    let middles = ["", "0", "1", "9", "80", "443", "4321", "65535", "65536", "99999", "abc", "+", "+5", " 7", "7 ", "1e3", "\u{0663}"];
    let suffixes = ["", " ", "\n", "\r\n", "\u{85}", "\u{200b}", "x", "0", "00000"];
    for p in prefixes {
        for m in middles {
            for s in suffixes {
                let line = format!("{}{}{}", p, m, s);
                assert_eq!(classify_line(&line), by_std(&line), "line {:?}", line);
            }
        }
    }
}
