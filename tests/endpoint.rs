use lol_horses::endpoint::{auth_header, conversations_url, match_history_url, messages_url};

#[test]
fn auth_header_encodes_credentials() {
    assert_eq!(auth_header("abc"), "Basic cmlvdDphYmM=");
    assert_eq!(auth_header(""), "Basic cmlvdDo=");
    assert_eq!(auth_header("é"), "Basic cmlvdDrDqQ==");
}

#[test]
fn urls_point_at_local_api() {
    assert_eq!(conversations_url("5432"), "https://127.0.0.1:5432/lol-chat/v1/conversations");
    assert_eq!(
        messages_url("5432", "abc@champ-select"),
        "https://127.0.0.1:5432/lol-chat/v1/conversations/abc@champ-select/messages"
    );
    assert_eq!(
        match_history_url("80", "12345"),
        "https://127.0.0.1:80/lol-match-history/v3/matchlist/account/12345"
    );
}
