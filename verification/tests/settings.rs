use feedwatch::settings::{parse_u64, Error, Settings, Token, DEFAULT_REFRESH_SECONDS};

fn text(s: &str) -> Option<String> {
    Some(s.to_string())
}

#[test]
fn default_settings_name_two_feeds() {
    let settings = Settings::default();
    assert_eq!(settings.token().to_string(), "");
    assert_eq!(settings.channel(), 0);
    assert_eq!(
        settings.feed().to_vec(),
        vec![
            "https://blog.counter-strike.net/index.php/feed/".to_string(),
            "https://blog.counter-strike.net/index.php/category/updates/feed/".to_string(),
        ]
    );
    assert_eq!(settings.refresh_seconds(), 600);
    assert_eq!(DEFAULT_REFRESH_SECONDS, 600);
}

#[test]
fn from_values_takes_what_it_is_given() {
    let settings = Settings::from_values(
        text("secret"),
        Some(42),
        Some(vec!["https://a.example/feed".to_string(), "https://b.example/feed".to_string()]),
        text("120"),
    )
    .unwrap();
    assert_eq!(settings.token().to_string(), "secret");
    assert_eq!(settings.channel(), 42);
    assert_eq!(settings.feed().len(), 2);
    assert_eq!(settings.feed()[0], "https://a.example/feed");
    assert_eq!(settings.feed()[1], "https://b.example/feed");
    assert_eq!(settings.refresh_seconds(), 120);
}

#[test]
fn from_values_needs_a_token() {
    let r = Settings::from_values(None, Some(1), None, None);
    assert_eq!(r.err(), Some(Error::DiscordTokenNotFound));
    let r = Settings::from_values(None, None, None, None);
    assert_eq!(r.err(), Some(Error::DiscordTokenNotFound));
}

#[test]
fn from_values_needs_a_channel() {
    let r = Settings::from_values(text("secret"), None, Some(Vec::new()), text("5"));
    assert_eq!(r.err(), Some(Error::RssChannelNotFound));
}

#[test]
fn from_values_defaults_feeds_and_seconds() {
    let settings = Settings::from_values(text("secret"), Some(7), None, None).unwrap();
    assert_eq!(settings.feed().len(), 0);
    assert_eq!(settings.refresh_seconds(), 600);
}

#[test]
fn from_values_falls_back_on_seconds_it_cannot_read() {
    for bad in ["", "soon", "-5", "1.5", " 30", "30 ", "18446744073709551616", "+", "1_000"] {
        let settings = Settings::from_values(text("secret"), Some(7), None, text(bad)).unwrap();
        assert_eq!(settings.refresh_seconds(), 600);
    }
}

#[test]
fn from_values_takes_no_pause_of_nothing() {
    for zero in ["0", "+0", "000", "+00"] {
        assert_eq!(parse_u64(zero), Some(0));
        let settings = Settings::from_values(text("secret"), Some(7), None, text(zero)).unwrap();
        assert_eq!(settings.refresh_seconds(), 600);
    }
    let settings = Settings::from_values(text("secret"), Some(7), None, text("1")).unwrap();
    assert_eq!(settings.refresh_seconds(), 1);
    assert!(settings.clone().refresh_seconds() > 0);
    assert!(Settings::default().refresh_seconds() > 0);
}

#[test]
fn parse_u64_reads_decimal_numbers() {
    assert_eq!(parse_u64("0"), Some(0));
    assert_eq!(parse_u64("600"), Some(600));
    assert_eq!(parse_u64("+15"), Some(15));
    assert_eq!(parse_u64("007"), Some(7));
    assert_eq!(parse_u64("18446744073709551615"), Some(u64::MAX));
}

#[test]
fn parse_u64_rejects_the_rest() {
    assert_eq!(parse_u64(""), None);
    assert_eq!(parse_u64("+"), None);
    assert_eq!(parse_u64("++1"), None);
    assert_eq!(parse_u64("-1"), None);
    assert_eq!(parse_u64("12a"), None);
    assert_eq!(parse_u64("a12"), None);
    assert_eq!(parse_u64("1 2"), None);
    assert_eq!(parse_u64("18446744073709551616"), None);
    assert_eq!(parse_u64("99999999999999999999999"), None);
    assert_eq!(parse_u64("\u{0663}"), None);
}

#[test]
fn parse_u64_agrees_with_the_standard_parser() {
    let texts = [
        "", "0", "1", "9", "10", "+0", "+", "-", "-0", "00", "0x10", "42", "4 2", "١٢", "1e3",
        "18446744073709551614", "18446744073709551615", "18446744073709551616",
        "18446744073709551620", "184467440737095516150", "+18446744073709551615", "٣",
        "００７", "3\n", "\t3", "1,000", "+-1", "１",
    ];
    for t in texts {
        assert_eq!(parse_u64(t), t.parse::<u64>().ok());
    }
}

#[test]
fn a_token_is_the_text_it_was_made_of() {
    let token = Token::from("abc.def");
    assert_eq!(token.to_string(), "abc.def");
    assert_eq!(token.clone().to_string(), "abc.def");
    assert_eq!(Token::default().to_string(), "");
}

#[test]
fn settings_errors_describe_themselves() {
    assert_eq!(Error::DiscordTokenNotFound.to_string(), "discord token could not be found");
    assert_eq!(Error::RssChannelNotFound.to_string(), "rss channel id could not be found");
    assert_eq!(Error::DirectoryNotFound.to_string(), "the config directory could not be found");
    assert_eq!(
        Error::DirectoryCreationFailed.to_string(),
        "the config directory could not be created"
    );
    assert_eq!(Error::SerializationFailed.to_string(), "the settings could not be serialized");
    assert_eq!(Error::WriteFailed.to_string(), "the settings file could not be written");
}
