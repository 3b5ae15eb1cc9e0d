use esp32s3_i2s_mic_idf::http::simple_response;
use esp32s3_i2s_mic_idf::text::push_decimal;

#[test]
fn numbers_are_written_in_decimal() {
    let mut out = String::from("n=");
    push_decimal(&mut out, 0);
    out.push(' ');
    push_decimal(&mut out, 9);
    out.push(' ');
    push_decimal(&mut out, 10);
    out.push(' ');
    push_decimal(&mut out, 1234567890);
    out.push(' ');
    push_decimal(&mut out, u64::MAX);
    assert_eq!(out, "n=0 9 10 1234567890 18446744073709551615");
}

#[test]
fn a_response_says_how_long_its_body_is() {
    assert_eq!(
        simple_response(404, "Not Found", "Use ws://<ip>/audio"),
        "HTTP/1.1 404 Not Found\r\nContent-Type: text/plain; charset=utf-8\r\nContent-Length: 19\r\nConnection: close\r\n\r\nUse ws://<ip>/audio"
    );
}

#[test]
fn the_length_counts_bytes_not_characters() {
    let body = "gr\u{fc}\u{df} dich \u{1f3a4}";
    let response = simple_response(200, "OK", body);
    assert_eq!(body.chars().count(), 11);
    assert_eq!(
        response,
        format!(
            "HTTP/1.1 200 OK\r\nContent-Type: text/plain; charset=utf-8\r\nContent-Length: {}\r\nConnection: close\r\n\r\n{}",
            16, body
        )
    );
    assert_eq!(body.len(), 16);
}

#[test]
fn a_response_may_be_empty() {
    assert_eq!(
        simple_response(65535, "", ""),
        "HTTP/1.1 65535 \r\nContent-Type: text/plain; charset=utf-8\r\nContent-Length: 0\r\nConnection: close\r\n\r\n"
    );
}
