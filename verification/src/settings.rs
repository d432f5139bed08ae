//! The settings of the relay: where to post, what to poll, and how often.

use crate::text::{text_view, text_views};
use vstd::prelude::*;
use vstd::std_specs::convert::FromSpecImpl;

verus! {

/// The seconds between two polling cycles where the settings name none.
pub const DEFAULT_REFRESH_SECONDS: u64 = 600;

/// Why the settings could not be had.
#[derive(Debug, Clone, Copy, PartialEq, Eq, Structural)]
pub enum Error {
    DiscordTokenNotFound,
    RssChannelNotFound,
    DirectoryNotFound,
    DirectoryCreationFailed,
    SerializationFailed,
    WriteFailed,
}

impl Error {
    /// The text that describes each error.
    pub open spec fn message(self) -> Seq<char> {
        match self {
            Error::DiscordTokenNotFound => "discord token could not be found"@,
            Error::RssChannelNotFound => "rss channel id could not be found"@,
            Error::DirectoryNotFound => "the config directory could not be found"@,
            Error::DirectoryCreationFailed => "the config directory could not be created"@,
            Error::SerializationFailed => "the settings could not be serialized"@,
            Error::WriteFailed => "the settings file could not be written"@,
        }
    }

    /// A short description of the error.
    pub fn to_string(&self) -> (r: String)
        ensures
            r@ == self.message(),
    {
        match self {
            Error::DiscordTokenNotFound => "discord token could not be found".to_owned(),
            Error::RssChannelNotFound => "rss channel id could not be found".to_owned(),
            Error::DirectoryNotFound => "the config directory could not be found".to_owned(),
            Error::DirectoryCreationFailed => "the config directory could not be created".to_owned(),
            Error::SerializationFailed => "the settings could not be serialized".to_owned(),
            Error::WriteFailed => "the settings file could not be written".to_owned(),
        }
    }
}

/// The secret with which the relay signs in at the sink.
#[derive(Debug)]
pub struct Token(String);

impl View for Token {
    type V = Seq<char>;

    closed spec fn view(&self) -> Seq<char> {
        self.0@
    }
}

impl Token {
    /// The token as text.
    pub fn to_string(&self) -> (r: String)
        ensures
            r@ == self@,
    {
        self.0.clone()
    }
}

impl Clone for Token {
    fn clone(&self) -> (r: Self)
        ensures
            r == *self,
    {
        Token(self.0.clone())
    }
}

impl Default for Token {
    fn default() -> (r: Token)
        ensures
            r@ == Seq::<char>::empty(),
    {
        Token(String::new())
    }
}

impl From<&str> for Token {
    fn from(value: &str) -> (r: Token)
        ensures
            r@ == value@,
    {
        Token(value.to_owned())
    }
}

impl FromSpecImpl<&str> for Token {
    open spec fn obeys_from_spec() -> bool {
        false
    }

    open spec fn from_spec(value: &str) -> Token {
        arbitrary()
    }
}

/// The settings with their texts as sequences of characters.
pub struct SettingsView {
    pub token: Seq<char>,
    pub channel: u64,
    pub feed: Seq<Seq<char>>,
    pub refresh_rate: u64,
}

/// What the relay is set up with: the token, the channel to post to, the
/// feeds to poll in their order, and the seconds between two cycles, which
/// are never 0.
#[derive(Debug)]
pub struct Settings {
    token: Token,
    channel: u64,
    feed: Vec<String>,
    refresh_rate: u64,
}

impl View for Settings {
    type V = SettingsView;

    closed spec fn view(&self) -> SettingsView {
        SettingsView {
            token: self.token@,
            channel: self.channel,
            feed: text_views(self.feed@),
            refresh_rate: self.refresh_rate,
        }
    }
}

impl Clone for Settings {
    fn clone(&self) -> (r: Self)
        ensures
            r@ == self@,
    {
        proof {
            use_type_invariant(self);
        }
        let feed = self.feed.clone();
        assert(text_views(feed@) =~= text_views(self.feed@));
        Settings {
            token: self.token.clone(),
            channel: self.channel,
            feed,
            refresh_rate: self.refresh_rate,
        }
    }
}

/// The settings of a relay that was given none.
pub open spec fn default_settings() -> SettingsView {
    SettingsView {
        token: Seq::empty(),
        channel: 0,
        feed: seq![
            "https://blog.counter-strike.net/index.php/feed/"@,
            "https://blog.counter-strike.net/index.php/category/updates/feed/"@,
        ],
        refresh_rate: 600,
    }
}

/// The value of a decimal digit.
pub open spec fn digit_value(c: char) -> nat {
    (c as u32 - 48) as nat
}

/// Whether a character is one of `0` to `9`.
pub open spec fn is_digit(c: char) -> bool {
    48 <= c as u32 <= 57
}

/// The number that a run of decimal digits spells.
pub open spec fn digits_value(digits: Seq<char>) -> nat
    decreases digits.len(),
{
    if digits.len() == 0 {
        0
    } else {
        10 * digits_value(digits.drop_last()) + digit_value(digits.last())
    }
}

/// Whether a text is made of decimal digits alone.
pub open spec fn all_digits(digits: Seq<char>) -> bool {
    forall|i: int| 0 <= i < digits.len() ==> is_digit(#[trigger] digits[i])
}

/// A text without the `+` that it may begin with.
pub open spec fn unsigned_part(text: Seq<char>) -> Seq<char> {
    if text.len() > 0 && text[0] == '+' {
        text.drop_first()
    } else {
        text
    }
}

/// The number that a text spells: decimal digits, at least one, with or
/// without a `+` in front, and no more than fits.
pub open spec fn decimal_u64(text: Seq<char>) -> Option<u64> {
    let digits = unsigned_part(text);
    if digits.len() > 0 && all_digits(digits) && digits_value(digits) <= u64::MAX {
        Some(digits_value(digits) as u64)
    } else {
        None
    }
}

/// The seconds between two cycles that a settings file asks for: what it
/// spells where it spells a number greater than 0, else the default. A
/// cycle without a pause is not to be had.
pub open spec fn refresh_seconds_of(text: Option<Seq<char>>) -> u64 {
    match text {
        Some(t) => match decimal_u64(t) {
            Some(seconds) => if seconds > 0 {
                seconds
            } else {
                DEFAULT_REFRESH_SECONDS
            },
            None => DEFAULT_REFRESH_SECONDS,
        },
        None => DEFAULT_REFRESH_SECONDS,
    }
}

/// The settings that the values of a settings file make, where they make
/// any: the token and the channel are needed, the feeds default to none and
/// the seconds, where they are not given, cannot be read or are 0, to
/// `DEFAULT_REFRESH_SECONDS`.
pub open spec fn settings_of(
    token: Option<Seq<char>>,
    channel: Option<u64>,
    feed: Option<Seq<Seq<char>>>,
    refresh_rate: Option<Seq<char>>,
) -> Result<SettingsView, Error> {
    match (token, channel) {
        (None, _) => Err(Error::DiscordTokenNotFound),
        (Some(_), None) => Err(Error::RssChannelNotFound),
        (Some(token), Some(channel)) => Ok(
            SettingsView {
                token,
                channel,
                feed: match feed {
                    Some(urls) => urls,
                    None => Seq::empty(),
                },
                refresh_rate: refresh_seconds_of(refresh_rate),
            },
        ),
    }
}

proof fn lemma_digits_value_grows(digits: Seq<char>, k: int)
    requires
        0 <= k <= digits.len(),
    ensures
        digits_value(digits.take(k)) <= digits_value(digits),
    decreases digits.len() - k,
{
    if k < digits.len() {
        lemma_digits_value_grows(digits, k + 1);
        assert(digits.take(k + 1).drop_last() =~= digits.take(k));
    } else {
        assert(digits.take(k) =~= digits);
    }
}

/// Reads a number as `decimal_u64` says.
pub fn parse_u64(text: &str) -> (r: Option<u64>)
    ensures
        r == decimal_u64(text@),
{
    let n: usize = text.unicode_len();
    let mut i: usize = 0;
    if n > 0 && text.get_char(0) == '+' {
        i = 1;
    }
    let start: usize = i;
    let ghost digits = text@.subrange(start as int, n as int);
    assert(digits =~= unsigned_part(text@));
    if i == n {
        return None;
    }
    let mut value: u64 = 0;
    while i < n
        invariant
            start <= i <= n,
            n == text@.len(),
            digits == text@.subrange(start as int, n as int),
            digits == unsigned_part(text@),
            forall|k: int| 0 <= k < i - start ==> is_digit(#[trigger] digits[k]),
            value == digits_value(digits.take(i - start)),
        decreases n - i,
    {
        let c: char = text.get_char(i);
        let code: u32 = c as u32;
        assert(digits[i - start] == c);
        if code < 48 || code > 57 {
            assert(!is_digit(digits[i - start]));
            return None;
        }
        let digit: u64 = (code - 48) as u64;
        proof {
            let read = digits.take(i - start + 1);
            assert(read.drop_last() =~= digits.take(i - start));
            assert(read.last() == c);
            assert(digits_value(read) == 10 * value + digit);
            lemma_digits_value_grows(digits, i - start + 1);
        }
        if value > (u64::MAX - digit) / 10 {
            return None;
        }
        value = value * 10 + digit;
        i += 1;
    }
    assert(digits.take(i - start) =~= digits);
    Some(value)
}

impl Default for Settings {
    fn default() -> (r: Settings)
        ensures
            r@ == default_settings(),
    {
        let mut feed: Vec<String> = Vec::new();
        feed.push("https://blog.counter-strike.net/index.php/feed/".to_owned());
        feed.push("https://blog.counter-strike.net/index.php/category/updates/feed/".to_owned());
        assert(text_views(feed@) =~= default_settings().feed);
        Settings { token: Token::default(), channel: 0, feed, refresh_rate: DEFAULT_REFRESH_SECONDS }
    }
}

impl Settings {
    #[verifier::type_invariant]
    spec fn inv(self) -> bool {
        self.refresh_rate > 0
    }

    /// Makes the settings of the values that a settings file gave, each
    /// `None` where the file does not give it. Without a token there are no
    /// settings, nor without a channel. Seconds that cannot be read, or that
    /// are 0, give way to `DEFAULT_REFRESH_SECONDS`.
    pub fn from_values(
        token: Option<String>,
        channel: Option<u64>,
        feed: Option<Vec<String>>,
        refresh_rate: Option<String>,
    ) -> (r: Result<Settings, Error>)
        ensures
            match settings_of(
                text_view(token),
                channel,
                match feed {
                    Some(urls) => Some(text_views(urls@)),
                    None => None,
                },
                text_view(refresh_rate),
            ) {
                Ok(settings) => r is Ok && r->Ok_0@ == settings,
                Err(error) => r == Err::<Settings, Error>(error),
            },
            r is Ok ==> r->Ok_0@.refresh_rate > 0,
    {
        let token = match token {
            Some(text) => Token(text),
            None => { return Err(Error::DiscordTokenNotFound); },
        };
        let channel = match channel {
            Some(id) => id,
            None => { return Err(Error::RssChannelNotFound); },
        };
        let feed = match feed {
            Some(urls) => urls,
            None => {
                let none: Vec<String> = Vec::new();
                assert(text_views(none@) =~= Seq::<Seq<char>>::empty());
                none
            },
        };
        let refresh_rate = match refresh_rate {
            Some(text) => match parse_u64(text.as_str()) {
                Some(seconds) => if seconds > 0 {
                    seconds
                } else {
                    DEFAULT_REFRESH_SECONDS
                },
                None => DEFAULT_REFRESH_SECONDS,
            },
            None => DEFAULT_REFRESH_SECONDS,
        };
        Ok(Settings { token, channel, feed, refresh_rate })
    }

    /// The token to sign in with.
    pub fn token(&self) -> (r: &Token)
        ensures
            r@ == self@.token,
    {
        &self.token
    }

    /// The feeds to poll, in their order.
    pub fn feed(&self) -> (r: &[String])
        ensures
            text_views(r@) == self@.feed,
    {
        self.feed.as_slice()
    }

    /// The channel to post to.
    pub fn channel(&self) -> (r: u64)
        ensures
            r == self@.channel,
    {
        self.channel
    }

    /// The seconds between two polling cycles, never 0.
    pub fn refresh_seconds(&self) -> (r: u64)
        ensures
            r == self@.refresh_rate,
            r > 0,
    {
        proof {
            use_type_invariant(self);
        }
        self.refresh_rate
    }
}

} // verus!
