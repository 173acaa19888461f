use gompei::moderation::{clear_allowed, parse_message_link};

#[test]
fn purge_limit() {
    assert!(clear_allowed(0));
    assert!(clear_allowed(100));
    assert!(!clear_allowed(101));
    assert!(!clear_allowed(u64::MAX));
}

#[test]
fn message_link_ids() {
    let link = "https://discord.com/channels/81384788765712384/381880193251409931/823645911411408906";
    assert_eq!(
        parse_message_link(link.as_bytes()),
        Some((381880193251409931, 823645911411408906))
    );
    let placeholder = "https://discord.com/channels/000000000000000000/000000000000000000/000000000000000000";
    assert_eq!(parse_message_link(placeholder.as_bytes()), Some((0, 0)));
}

#[test]
fn message_link_with_unreadable_ids() {
    let link = "https://discord.com/channels/1/general/99999999999999999999";
    assert_eq!(parse_message_link(link.as_bytes()), Some((0, 0)));
    let trailing = "https://discord.com/channels/1/2/3/extra";
    assert_eq!(parse_message_link(trailing.as_bytes()), Some((2, 3)));
}

#[test]
fn message_link_too_short() {
    assert_eq!(parse_message_link(b"https://"), None);
    assert_eq!(parse_message_link(b"http"), None);
    assert_eq!(parse_message_link(b"https://discord.com/channels/1/2"), None);
}
