use chat::client::ui_event::is_whitespace;
use chat::client::UIEvent;

fn connect(addr: &str, name: &str) -> Option<UIEvent> {
    Some(UIEvent::Connect { server_addr: String::from(addr), user_name: String::from(name) })
}

#[test]
fn plain_line_is_a_message() {
    assert_eq!(UIEvent::parse("hello"), Some(UIEvent::Message(String::from("hello"))));
    assert_eq!(UIEvent::parse(""), Some(UIEvent::Message(String::new())));
    assert_eq!(UIEvent::parse("  /connect a b"), Some(UIEvent::Message(String::from("  /connect a b"))));
    assert_eq!(UIEvent::parse("a / b"), Some(UIEvent::Message(String::from("a / b"))));
    assert_eq!(UIEvent::parse("héllo ✓"), Some(UIEvent::Message(String::from("héllo ✓"))));
}

#[test]
fn connect_takes_address_and_name() {
    assert_eq!(UIEvent::parse("/connect localhost:6969 alice"), connect("localhost:6969", "alice"));
    assert_eq!(UIEvent::parse("/connect   a\t\tb  "), connect("a", "b"));
    assert_eq!(UIEvent::parse("/ connect a b"), connect("a", "b"));
    assert_eq!(UIEvent::parse("/connect a b c d"), connect("a", "b"));
    assert_eq!(UIEvent::parse("/connect ::1 日本語"), connect("::1", "日本語"));
    assert_eq!(UIEvent::parse("/connect\u{3000}a\u{a0}b"), connect("a", "b"));
}

#[test]
fn connect_needs_both_words() {
    assert_eq!(UIEvent::parse("/connect"), None);
    assert_eq!(UIEvent::parse("/connect   "), None);
    assert_eq!(UIEvent::parse("/connect host"), None);
    assert_eq!(UIEvent::parse("/connect host   "), None);
}

#[test]
fn disconnect_takes_no_words() {
    assert_eq!(UIEvent::parse("/disconnect"), Some(UIEvent::Disconnect));
    assert_eq!(UIEvent::parse("/  disconnect  "), Some(UIEvent::Disconnect));
    assert_eq!(UIEvent::parse("/disconnect now please"), Some(UIEvent::Disconnect));
}

#[test]
fn unknown_commands_mean_nothing() {
    assert_eq!(UIEvent::parse("/"), None);
    assert_eq!(UIEvent::parse("/   "), None);
    assert_eq!(UIEvent::parse("/quit"), None);
    assert_eq!(UIEvent::parse("/connected a b"), None);
    assert_eq!(UIEvent::parse("/connec a b"), None);
    assert_eq!(UIEvent::parse("/Connect a b"), None);
    assert_eq!(UIEvent::parse("//connect a b"), None);
    assert_eq!(UIEvent::parse("/disconnect\u{200b}"), None);
}

#[test]
fn from_str_agrees_with_parse() {
    assert_eq!("/disconnect".parse::<UIEvent>(), Ok(UIEvent::Disconnect));
    assert_eq!("/nope".parse::<UIEvent>(), Err(()));
    assert_eq!("hi".parse::<UIEvent>(), Ok(UIEvent::Message(String::from("hi"))));
    assert_eq!(
        "/connect h n".parse::<UIEvent>(),
        Ok(UIEvent::Connect { server_addr: String::from("h"), user_name: String::from("n") })
    );
}

#[test]
fn white_space_is_what_the_standard_library_says() {
    let mut code = 0u32;
    while code <= 0x10ffff {
        if let Some(c) = char::from_u32(code) {
            assert_eq!(is_whitespace(c), c.is_whitespace());
        }
        code += 1;
    }
}

fn by_the_standard_library(s: &str) -> Option<UIEvent> {
    match s.strip_prefix('/') {
        Some(rest) => {
            let mut words = rest.split_whitespace();
            match words.next()? {
                "connect" => Some(UIEvent::Connect {
                    server_addr: words.next()?.to_owned(),
                    user_name: words.next()?.to_owned(),
                }),
                "disconnect" => Some(UIEvent::Disconnect),
                _ => None,
            }
        }
        None => Some(UIEvent::Message(s.to_owned())),
    }
}

#[test]
fn parse_splits_words_as_the_standard_library_does() {
    let pieces = ["/", "connect", "disconnect", " ", "\t", "\u{2003}", "a", "bé", "x:1", "/", "\n"];
    let mut lines = vec![String::new()];
    for _ in 0..4 {
        let mut longer = Vec::new();
        for line in &lines {
            for piece in pieces {
                longer.push(format!("{line}{piece}"));
            }
        }
        for line in &longer {
            assert_eq!(UIEvent::parse(line), by_the_standard_library(line));
        }
        lines = longer;
    }
}
