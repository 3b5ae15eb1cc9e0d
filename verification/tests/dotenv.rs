use esp32s3_i2s_mic_idf::dotenv::{embed_wifi_env, read_wifi_env, white_space, EnvError};

fn both(contents: &str) -> (String, String) {
    let env = read_wifi_env(contents).ok().unwrap();
    (env.ssid, env.pass)
}

fn pair(ssid: &str, pass: &str) -> (String, String) {
    (ssid.to_string(), pass.to_string())
}

#[test]
fn credentials_are_read() {
    assert_eq!(both("WIFI_SSID=home\nWIFI_PASS=secret\n"), pair("home", "secret"));
    assert_eq!(both("WIFI_SSID=home\nWIFI_PASS=secret"), pair("home", "secret"));
    assert_eq!(both("WIFI_PASS=p\r\nWIFI_SSID=s\r\n"), pair("s", "p"));
}

#[test]
fn white_space_around_names_and_values_is_dropped() {
    assert_eq!(
        both("  WIFI_SSID \t=  my net  \n\u{a0}WIFI_PASS=\u{3000} p w \u{2028}"),
        pair("my net", "p w")
    );
}

#[test]
fn a_value_may_hold_an_equals_sign_or_nothing() {
    assert_eq!(both("WIFI_SSID=a=b\nWIFI_PASS=\n"), pair("a=b", ""));
    assert_eq!(both("WIFI_SSID==x\nWIFI_PASS= # p"), pair("=x", "# p"));
}

#[test]
fn other_lines_are_passed_over() {
    let contents = "# WIFI_SSID=no\n\n   \nnonsense\n=nothing\nOTHER=1\nWIFI_SSID=s\n #WIFI_PASS=no\nWIFI_PASS=p\n";
    assert_eq!(both(contents), pair("s", "p"));
}

#[test]
fn the_last_assignment_counts() {
    assert_eq!(
        both("WIFI_SSID=old\nWIFI_PASS=p\nWIFI_SSID=new\nWIFI_PASS\n"),
        pair("new", "p")
    );
}

#[test]
fn missing_credentials_are_named() {
    assert_eq!(read_wifi_env("").err(), Some(EnvError::MissingSsid));
    assert_eq!(read_wifi_env("WIFI_PASS=p").err(), Some(EnvError::MissingSsid));
    assert_eq!(read_wifi_env("WIFI_SSID=s").err(), Some(EnvError::MissingPass));
    assert_eq!(read_wifi_env("wifi_ssid=s\nWIFI_PASS=p").err(), Some(EnvError::MissingSsid));
    assert_eq!(embed_wifi_env("WIFI_SSID=s").err(), Some(EnvError::MissingPass));
    assert_eq!(embed_wifi_env("\n").err(), Some(EnvError::MissingSsid));
}

#[test]
fn the_compiler_is_told() {
    assert_eq!(
        embed_wifi_env("WIFI_SSID=caf\u{e9}\nWIFI_PASS=pw").ok(),
        Some(pair("cargo:rustc-env=WIFI_SSID=caf\u{e9}", "cargo:rustc-env=WIFI_PASS=pw"))
    );
}

#[test]
fn white_space_is_that_of_unicode() {
    for n in 0..=0x10ffffu32 {
        if let Some(c) = char::from_u32(n) {
            assert_eq!(white_space(c), c.is_whitespace());
        }
    }
}
