use messenger_app_server::messages::Messages;
use messenger_app_server::messages::Store;
use messenger_app_server::messages::get_conversation;
use messenger_app_server::messages::init_messages;
use messenger_app_server::messages::parse_message;

#[test]
fn test_new_message() {
    // This just tests the new() function for Messages.
    let message = Messages {
        from_user: String::from("JOSH"),
        to_user: String::from("ALI"),
        have_read: 0 as u8,
        contents: String::from("HELLO"),
    };
    let other_message =
        Messages::new(String::from("JOSH"), String::from("ALI"), String::from("HELLO"));
    assert_eq!(other_message.from_user, message.from_user);
    assert_eq!(other_message.to_user, message.to_user);
    assert_eq!(other_message.have_read, message.have_read);
    assert_eq!(other_message.contents, message.contents);
}

#[test]
fn test_database() {
    // This tests the creation, insertion into, and querying from the store.
    let mut store = Store::new();
    init_messages(&mut store);
    let message1 = String::from("POST JOSH RACHAEL HELLO");
    let message2 = String::from("POST RACHAEL JOSH HOWARE YOU");

    let message1 = parse_message(message1);
    let message2 = parse_message(message2);
    message1.insert(&mut store);
    message2.insert(&mut store);

    let conversation = get_conversation(&mut store, String::from("JOSH"));

    let answer = String::from("JOSH RACHAEL HELLO\nRACHAEL JOSH HOWARE YOU");

    assert_eq!(conversation, answer);

    let message1 = String::from("POST JOSH RACHAEL I AM GOOD");
    let message2 = String::from("POST RACHAEL JOSH I AM LEAVING");

    let message1 = parse_message(message1);
    let message2 = parse_message(message2);
    message1.insert(&mut store);
    message2.insert(&mut store);

    let _answer = String::from("JOSH RACHAEL I AM GOOD\nRACHAEL JOSH I AM LEAVING");

    // This last line removes the contents from the store, so the data does
    // not stay for when the store is actually used.
    init_messages(&mut store);
}

#[test]
fn parse_message_rejoins_contents_with_single_spaces() {
    let m = parse_message(String::from("POST A B one two  three"));
    assert_eq!(m.from_user, "A");
    assert_eq!(m.to_user, "B");
    assert_eq!(m.contents, "one two three");
    assert_eq!(m.have_read, 0);
}

#[test]
fn parse_message_handles_tabs_and_extra_whitespace() {
    let m = parse_message(String::from("POST\tJOSH  RACHAEL\t HELLO\tTHERE"));
    assert_eq!(m.from_user, "JOSH");
    assert_eq!(m.to_user, "RACHAEL");
    assert_eq!(m.contents, "HELLO THERE");
}

#[test]
fn get_conversation_empty_store_returns_empty_string() {
    let mut store = Store::new();
    assert_eq!(get_conversation(&mut store, String::from("JOSH")), "");
}

#[test]
fn get_conversation_consumes_for_both_endpoints() {
    // A record (A, B) is returned by whichever endpoint asks first; the
    // other then finds it already consumed.
    let mut store = Store::new();
    parse_message(String::from("POST A B HELLO")).insert(&mut store);
    assert_eq!(get_conversation(&mut store, String::from("B")), "A B HELLO");
    assert_eq!(get_conversation(&mut store, String::from("A")), "");
    assert_eq!(get_conversation(&mut store, String::from("B")), "");
}

#[test]
fn init_clears_all_records() {
    let mut store = Store::new();
    parse_message(String::from("POST A B HELLO")).insert(&mut store);
    parse_message(String::from("POST B A REPLY")).insert(&mut store);
    init_messages(&mut store);
    assert_eq!(get_conversation(&mut store, String::from("A")), "");
    assert_eq!(get_conversation(&mut store, String::from("B")), "");
}
