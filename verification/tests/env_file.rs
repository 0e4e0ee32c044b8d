use picomate::env_file::parse;

fn settings(contents: &str) -> Vec<(String, String)> {
    parse(&contents.chars().collect())
        .iter()
        .map(|s| (s.key.iter().collect(), s.value.iter().collect()))
        .collect()
}

fn pair(key: &str, value: &str) -> (String, String) {
    (key.to_string(), value.to_string())
}

#[test]
fn keys_and_values() {
    assert_eq!(
        settings("WIFI_SSID=home\nWIFI_PASS=a=b c\n"),
        vec![pair("WIFI_SSID", "home"), pair("WIFI_PASS", "a=b c")]
    );
}

#[test]
fn white_space_is_ignored() {
    assert_eq!(
        settings("  KEY \t=  some value \r\n\u{a0}K2\u{2003}=\u{3000}v"),
        vec![pair("KEY", "some value"), pair("K2", "v")]
    );
}

#[test]
fn blank_lines_and_comments_set_nothing() {
    assert_eq!(settings(""), vec![]);
    assert_eq!(settings("\n \t\n# KEY=value\n  #=\nno equals sign\n"), vec![]);
}

#[test]
fn empty_keys_and_values() {
    assert_eq!(settings("KEY=\n=value\n="), vec![pair("KEY", ""), pair("", "value"), pair("", "")]);
}
