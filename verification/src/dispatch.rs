//! From a request line to a response: verb recognition, argument checks,
//! and the calls into the store.

use vstd::prelude::*;

use crate::messages::Rec;
use crate::messages::Store;
use crate::messages::get_conversation;
use crate::messages::lemma_lines_nonempty;
use crate::messages::mark_read;
use crate::messages::parse_message;
use crate::messages::unread_lines;
use crate::text::join_with;
use crate::text::lemma_join_nonempty;
use crate::text::tokenize;
use crate::text::tokens_of;
use crate::text::trim_pad;
use crate::text::trim_request;

verus! {

/// Why a request was refused.  A refused request never touches the store.
#[derive(Debug, Clone, Copy, PartialEq, Eq, Structural)]
pub enum RequestError {
    /// The request held no tokens at all.
    Empty,
    /// The first token was neither `POST` nor `GET`.
    UnknownVerb,
    /// The verb was known but an argument it needs was missing.
    MissingArguments,
}

/// Whether the request's verb is `POST`.
pub open spec fn is_post_request(m: Seq<char>) -> bool {
    tokens_of(m).len() > 0 && tokens_of(m)[0] == "POST"@
}

/// Whether the request's verb is `GET`.
pub open spec fn is_get_request(m: Seq<char>) -> bool {
    tokens_of(m).len() > 0 && tokens_of(m)[0] == "GET"@
}

/// How the request `m` is refused: `POST` needs three more tokens, `GET`
/// one more, any other verb is unknown, and a blank request is empty.
pub open spec fn request_error(m: Seq<char>) -> Option<RequestError> {
    if tokens_of(m).len() == 0 {
        Some(RequestError::Empty)
    } else if is_post_request(m) {
        if tokens_of(m).len() < 4 {
            Some(RequestError::MissingArguments)
        } else {
            None
        }
    } else if is_get_request(m) {
        if tokens_of(m).len() < 2 {
            Some(RequestError::MissingArguments)
        } else {
            None
        }
    } else {
        Some(RequestError::UnknownVerb)
    }
}

/// The record a valid `POST` request `m` appends under the id `id`.
pub open spec fn posted_rec(id: int, m: Seq<char>) -> Rec {
    Rec {
        id,
        from_user: tokens_of(m)[1],
        to_user: tokens_of(m)[2],
        read: false,
        contents: join_with(tokens_of(m).skip(3), seq![' ']),
    }
}

/// What a retrieval by `user` against the records `s` answers: the joined
/// unread lines, or the literal `null` when there is none.
pub open spec fn get_response(s: Seq<Rec>, user: Seq<char>) -> Seq<char> {
    if unread_lines(s, user).len() == 0 {
        "null"@
    } else {
        join_with(unread_lines(s, user), seq!['\n'])
    }
}

/// Handles a `POST` request: stores the message it carries as a fresh
/// unread record and acknowledges with a fixed phrase.
pub fn post_command(message: String, store: &mut Store) -> (res: String)
    requires
        old(store).wf(),
        old(store).next_id() < u64::MAX,
        tokens_of(message@).len() >= 4,
    ensures
        final(store).wf(),
        final(store)@ == old(store)@.push(posted_rec(old(store).next_id(), message@)),
        final(store).next_id() == old(store).next_id() + 1,
        res@ == "Message saved successfully."@,
{
    let m = parse_message(message);
    m.insert(store);
    "Message saved successfully.".to_owned()
}

/// Handles a `GET` request: returns and consumes the unread records that
/// name the second token as either endpoint, or `null` when there is none.
pub fn get_command(message: String, store: &mut Store) -> (res: String)
    requires
        old(store).wf(),
        tokens_of(message@).len() >= 2,
    ensures
        final(store).wf(),
        final(store)@ == mark_read(old(store)@, tokens_of(message@)[1]),
        final(store).next_id() == old(store).next_id(),
        res@ == get_response(old(store)@, tokens_of(message@)[1]),
{
    let ghost s0 = old(store)@;
    let tokens = tokenize(message.as_str());
    let user = tokens[1].clone();
    proof {
        assert(user@ == tokens_of(message@)[1]);
    }
    let mes = get_conversation(store, user);
    proof {
        let lines = unread_lines(s0, tokens_of(message@)[1]);
        lemma_lines_nonempty(s0, tokens_of(message@)[1]);
        if lines.len() > 0 {
            lemma_join_nonempty(lines, seq!['\n']);
        }
    }
    if mes.as_str().is_empty() {
        "null".to_owned()
    } else {
        mes
    }
}

/// Answers one parsed-and-trimmed request: a `POST` stores its message and
/// acknowledges, a `GET` returns and consumes the caller's unread records,
/// and anything else is refused without touching the store.
pub fn get_message_response(message: String, store: &mut Store) -> (r: Result<
    String,
    RequestError,
>)
    requires
        old(store).wf(),
        old(store).next_id() < u64::MAX,
    ensures
        final(store).wf(),
        request_error(message@) matches Some(e) ==> r == Err::<String, RequestError>(e)
            && *final(store) == *old(store),
        request_error(message@) is None && is_post_request(message@) ==> (r matches Ok(resp)
            && resp@ == "Message saved successfully."@ && final(store)@ == old(store)@.push(
            posted_rec(old(store).next_id(), message@),
        ) && final(store).next_id() == old(store).next_id() + 1),
        request_error(message@) is None && is_get_request(message@) ==> (r matches Ok(resp)
            && resp@ == get_response(old(store)@, tokens_of(message@)[1]) && final(store)@
            == mark_read(old(store)@, tokens_of(message@)[1])
            && final(store).next_id() == old(store).next_id()),
{
    let tokens = tokenize(message.as_str());
    if tokens.len() == 0 {
        return Err(RequestError::Empty);
    }
    proof {
        assert(tokens@[0]@ == tokens_of(message@)[0]);
        reveal_strlit("POST");
        reveal_strlit("GET");
        assert("POST"@.len() == 4);
        assert("GET"@.len() == 3);
        assert("POST"@ != "GET"@);
    }
    if tokens[0] == "POST".to_owned() {
        if tokens.len() < 4 {
            Err(RequestError::MissingArguments)
        } else {
            Ok(post_command(message, store))
        }
    } else if tokens[0] == "GET".to_owned() {
        if tokens.len() < 2 {
            Err(RequestError::MissingArguments)
        } else {
            Ok(get_command(message, store))
        }
    } else {
        Err(RequestError::UnknownVerb)
    }
}

/// The whole computation a connection performs on one raw request: strips
/// the buffer padding, dispatches, and hands back the response to write, or
/// nothing when the request is refused — in which case the store is exactly
/// as it was.
pub fn handle_request(store: &mut Store, raw: String) -> (r: Option<String>)
    requires
        old(store).wf(),
        old(store).next_id() < u64::MAX,
    ensures
        final(store).wf(),
        request_error(trim_pad(raw@)) is Some ==> r is None && *final(store) == *old(store),
        request_error(trim_pad(raw@)) is None && is_post_request(trim_pad(raw@)) ==> (r
            matches Some(resp) && resp@ == "Message saved successfully."@ && final(store)@
            == old(store)@.push(posted_rec(old(store).next_id(), trim_pad(raw@)))
            && final(store).next_id() == old(store).next_id() + 1),
        request_error(trim_pad(raw@)) is None && is_get_request(trim_pad(raw@)) ==> (r
            matches Some(resp) && resp@ == get_response(old(store)@, tokens_of(trim_pad(raw@))[1])
            && final(store)@ == mark_read(old(store)@, tokens_of(trim_pad(raw@))[1])
            && final(store).next_id() == old(store).next_id()),
{
    let message = trim_request(raw.as_str());
    match get_message_response(message, store) {
        Ok(resp) => Some(resp),
        Err(_) => None,
    }
}

} // verus!
