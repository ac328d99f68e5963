use vstd::prelude::*;
use vstd::string::StringExecFns;

verus! {

/// The standard, padded Base64 text of a string's UTF-8 bytes.
pub uninterp spec fn base64_of(s: Seq<char>) -> Seq<char>;

/// Relies on base64::encode, which writes the bytes it is given in the
/// standard alphabet with padding; a string is handed over as its UTF-8 bytes.
#[verifier::external_body]
fn base64_text(s: &str) -> (r: String)
    ensures
        r@ == base64_of(s@),
{
    base64::encode(s)
}

/// The address of the game client's API on this machine, up to the path.
pub open spec fn origin(port: Seq<char>) -> Seq<char> {
    "https://127.0.0.1:"@ + port
}

fn origin_of(port: &str) -> (r: String)
    ensures
        r@ == origin(port@),
{
    proof {
        reveal_strlit("https://127.0.0.1:");
    }
    let mut url = "https://127.0.0.1:".to_owned();
    url.append(port);
    url
}

/// The value of the `Authorization` header for an auth token.
pub open spec fn auth_value(token: Seq<char>) -> Seq<char> {
    "Basic "@ + base64_of("riot:"@ + token)
}

/// The `Authorization` header value that every request carries.
pub fn auth_header(token: &str) -> (r: String)
    ensures
        r@ == auth_value(token@),
{
    proof {
        reveal_strlit("riot:");
        reveal_strlit("Basic ");
    }
    let mut credentials = "riot:".to_owned();
    credentials.append(token);
    let encoded = base64_text(credentials.as_str());
    let mut header = "Basic ".to_owned();
    header.append(encoded.as_str());
    header
}

/// The URL that lists the chat conversations.
pub fn conversations_url(port: &str) -> (r: String)
    ensures
        r@ == origin(port@) + "/lol-chat/v1/conversations"@,
{
    proof {
        reveal_strlit("/lol-chat/v1/conversations");
    }
    let mut url = origin_of(port);
    url.append("/lol-chat/v1/conversations");
    url
}

/// The URL that lists the messages of a conversation.
pub fn messages_url(port: &str, conversation_id: &str) -> (r: String)
    ensures
        r@ == origin(port@) + "/lol-chat/v1/conversations/"@ + conversation_id@ + "/messages"@,
{
    proof {
        reveal_strlit("/lol-chat/v1/conversations/");
        reveal_strlit("/messages");
    }
    let mut url = origin_of(port);
    url.append("/lol-chat/v1/conversations/");
    url.append(conversation_id);
    url.append("/messages");
    url
}

/// The URL of a player's match history.
pub fn match_history_url(port: &str, account_id: &str) -> (r: String)
    ensures
        r@ == origin(port@) + "/lol-match-history/v3/matchlist/account/"@ + account_id@,
{
    proof {
        reveal_strlit("/lol-match-history/v3/matchlist/account/");
    }
    let mut url = origin_of(port);
    url.append("/lol-match-history/v3/matchlist/account/");
    url.append(account_id);
    url
}

} // verus!
