use messenger_app_server::dispatch::RequestError;
use messenger_app_server::dispatch::get_message_response;
use messenger_app_server::dispatch::handle_request;
use messenger_app_server::messages::Store;
use messenger_app_server::text::tokenize;
use messenger_app_server::text::trim_request;

fn respond(store: &mut Store, request: &str) -> Result<String, RequestError> {
    get_message_response(String::from(request), store)
}

#[test]
fn post_then_get_returns_the_message() {
    let mut store = Store::new();
    assert_eq!(
        respond(&mut store, "POST JOSH RACHAEL HELLO"),
        Ok(String::from("Message saved successfully."))
    );
    assert_eq!(respond(&mut store, "GET JOSH"), Ok(String::from("JOSH RACHAEL HELLO")));
}

#[test]
fn get_after_consumption_returns_null_for_both_endpoints() {
    let mut store = Store::new();
    assert_eq!(
        respond(&mut store, "POST JOSH RACHAEL HELLO"),
        Ok(String::from("Message saved successfully."))
    );
    assert_eq!(respond(&mut store, "GET JOSH"), Ok(String::from("JOSH RACHAEL HELLO")));
    assert_eq!(respond(&mut store, "GET JOSH"), Ok(String::from("null")));
    assert_eq!(respond(&mut store, "GET RACHAEL"), Ok(String::from("null")));
}

#[test]
fn get_returns_both_directions_in_arrival_order() {
    let mut store = Store::new();
    respond(&mut store, "POST JOSH RACHAEL HELLO").unwrap();
    respond(&mut store, "POST RACHAEL JOSH HOWARE YOU").unwrap();
    assert_eq!(
        respond(&mut store, "GET JOSH"),
        Ok(String::from("JOSH RACHAEL HELLO\nRACHAEL JOSH HOWARE YOU"))
    );
}

#[test]
fn post_contents_with_doubled_space_is_stored_with_single_spaces() {
    let mut store = Store::new();
    respond(&mut store, "POST A B one two  three").unwrap();
    assert_eq!(respond(&mut store, "GET A"), Ok(String::from("A B one two three")));
}

#[test]
fn unknown_verb_is_refused_and_stores_nothing() {
    let mut store = Store::new();
    assert_eq!(respond(&mut store, "FOOBAR stuff"), Err(RequestError::UnknownVerb));
    assert_eq!(respond(&mut store, "GET A"), Ok(String::from("null")));
}

#[test]
fn a_hundred_posts_come_back_to_the_recipient_in_order() {
    let mut store = Store::new();
    let mut expected = String::new();
    for i in 0..100 {
        let request = format!("POST SENDER{} X MESSAGE{}", i, i);
        assert_eq!(respond(&mut store, &request), Ok(String::from("Message saved successfully.")));
        if i > 0 {
            expected.push('\n');
        }
        expected.push_str(&format!("SENDER{} X MESSAGE{}", i, i));
    }
    let answer = respond(&mut store, "GET X").unwrap();
    assert_eq!(answer, expected);
    assert_eq!(answer.lines().count(), 100);
    assert_eq!(respond(&mut store, "GET X"), Ok(String::from("null")));
}

#[test]
fn empty_request_is_refused() {
    let mut store = Store::new();
    assert_eq!(respond(&mut store, ""), Err(RequestError::Empty));
    assert_eq!(respond(&mut store, "   \t "), Err(RequestError::Empty));
}

#[test]
fn post_with_missing_arguments_is_refused_and_stores_nothing() {
    let mut store = Store::new();
    assert_eq!(respond(&mut store, "POST"), Err(RequestError::MissingArguments));
    assert_eq!(respond(&mut store, "POST JOSH"), Err(RequestError::MissingArguments));
    assert_eq!(respond(&mut store, "POST JOSH RACHAEL"), Err(RequestError::MissingArguments));
    assert_eq!(respond(&mut store, "GET JOSH"), Ok(String::from("null")));
}

#[test]
fn get_with_missing_user_is_refused() {
    let mut store = Store::new();
    assert_eq!(respond(&mut store, "GET"), Err(RequestError::MissingArguments));
}

#[test]
fn get_with_extra_tokens_is_lenient() {
    let mut store = Store::new();
    respond(&mut store, "POST A B HI").unwrap();
    assert_eq!(respond(&mut store, "GET A B C D"), Ok(String::from("A B HI")));
}

#[test]
fn verbs_are_case_sensitive() {
    let mut store = Store::new();
    assert_eq!(respond(&mut store, "post A B HI"), Err(RequestError::UnknownVerb));
    assert_eq!(respond(&mut store, "Get A"), Err(RequestError::UnknownVerb));
}

#[test]
fn trim_request_strips_nul_padding_and_surrounding_whitespace() {
    assert_eq!(trim_request("GET JOSH\u{0}\u{0}\u{0}"), "GET JOSH");
    assert_eq!(trim_request("\u{0} \u{0}POST A B HI\u{0}\n"), "POST A B HI");
    assert_eq!(trim_request("\u{0}\u{0}"), "");
    assert_eq!(trim_request(""), "");
}

#[test]
fn handle_request_answers_a_buffer_padded_request() {
    // A 512-byte read buffer hands over the request followed by NUL padding.
    let mut store = Store::new();
    let mut raw = String::from("POST JOSH RACHAEL HELLO");
    while raw.len() < 512 {
        raw.push('\u{0}');
    }
    assert_eq!(
        handle_request(&mut store, raw),
        Some(String::from("Message saved successfully."))
    );
    let mut raw = String::from("GET JOSH");
    while raw.len() < 512 {
        raw.push('\u{0}');
    }
    assert_eq!(handle_request(&mut store, raw), Some(String::from("JOSH RACHAEL HELLO")));
}

#[test]
fn handle_request_refuses_bad_requests_silently() {
    let mut store = Store::new();
    assert_eq!(handle_request(&mut store, String::from("FOOBAR stuff\u{0}\u{0}")), None);
    assert_eq!(handle_request(&mut store, String::from("\u{0}\u{0}")), None);
    assert_eq!(handle_request(&mut store, String::from("GET A")), Some(String::from("null")));
}

#[test]
fn tokenize_splits_on_ascii_whitespace_runs() {
    let tokens = tokenize("  POST  A\tB\r\none  two ");
    let expected = vec!["POST", "A", "B", "one", "two"];
    assert_eq!(tokens.len(), expected.len());
    for (t, e) in tokens.iter().zip(expected.iter()) {
        assert_eq!(t, e);
    }
    assert_eq!(tokenize("").len(), 0);
    assert_eq!(tokenize(" \t ").len(), 0);
}
