use trade_server::authentication::Authenticate;
use trade_server::clock::Timestamp;
use trade_server::protocol::{
    classify_message, handle_client_request, parse_client_request, parse_pre_auth, handle_pre_auth, login_reply, login_request,
    login_success_reply, register_request, serialize_to_token, try_serialize_to_token,
    ClientAction, ClientRequest, ConnectionStep, JsonField, MessageKind, PreAuthRequest, Reply,
    ReplyStyle, TokenFields,
};
use trade_server::token::Token;

fn text_field(text: &str) -> Option<JsonField> {
    Some(JsonField { text: format!("\"{}\"", text), str_value: Some(text.to_string()) })
}

fn fields_for(token: &Token, expire: &str) -> TokenFields {
    TokenFields {
        user: text_field(&token.get_user_id()),
        token_id: text_field(&token.get_id()),
        expire_date: text_field(expire),
    }
}

fn registered() -> (Authenticate, Token) {
    let mut auth = Authenticate::new("server".to_string());
    let req = register_request("\"ann@example.com\"", "\"Password12\"", "\"Ann\"");
    let (reply, step) = handle_pre_auth(&mut auth, req);
    let token = match step {
        ConnectionStep::Authenticated(t) => t,
        _ => panic!("registration did not authenticate"),
    };
    match reply {
        Some(Reply::TokenJson(t)) => assert!(t.same_as(&token)),
        _ => panic!("no token reply"),
    }
    (auth, token)
}

#[test]
fn messages_are_classified_by_keyword() {
    assert!(matches!(classify_message("{\"register\":{}}"), MessageKind::Register));
    assert!(matches!(classify_message("{\"login\":{}}"), MessageKind::Login));
    assert!(matches!(classify_message("{\"login\":{\"register\":1}}"), MessageKind::Register));
    assert!(matches!(classify_message("{\"hello\":1}"), MessageKind::Other));
}

#[test]
fn requests_trim_json_quotes() {
    match register_request("\"a@b.com\"", "\"pw\"", "\"Name\"") {
        PreAuthRequest::Register { full_name, password, email } => {
            assert_eq!(full_name, "Name");
            assert_eq!(password, "pw");
            assert_eq!(email, "a@b.com");
        }
        _ => panic!("not a registration"),
    }
    match login_request("\"a@b.com\"", "12") {
        PreAuthRequest::Login { email, password } => {
            assert_eq!(email, "a@b.com");
            assert_eq!(password, "12");
        }
        _ => panic!("not a login"),
    }
}

#[test]
fn pre_auth_register_then_login() {
    let (mut auth, token) = registered();
    assert_eq!(token.get_user_id(), "ann@example.com");
    let (reply, step) = handle_pre_auth(&mut auth, login_request("\"ann@example.com\"", "\"Password12\""));
    match &step {
        ConnectionStep::Authenticated(t) => {
            assert_eq!(t.get_user_id(), "ann@example.com");
            assert!(auth.has_session(&t.get_id()));
        }
        _ => panic!("login did not authenticate"),
    }
    match reply {
        Some(Reply::Text(m)) => {
            assert!(m.starts_with("{\"login\": {\"token\": {\"user\": \"ann@example.com\", token_id: \""));
            assert!(m.ends_with(" UTC\"}}}"));
        }
        _ => panic!("no login reply"),
    }
}

#[test]
fn pre_auth_refusals() {
    let (mut auth, _) = registered();
    let (reply, step) = handle_pre_auth(&mut auth, login_request("\"ann@example.com\"", "\"nope\""));
    assert!(matches!(step, ConnectionStep::KeepReading));
    match reply {
        Some(Reply::Text(m)) => assert_eq!(m, "{login: {failed}}"),
        _ => panic!("no failure reply"),
    }
    let (reply, step) = handle_pre_auth(&mut auth, register_request("\"ann@example.com\"", "\"Password12\"", "\"A\""));
    assert!(matches!(step, ConnectionStep::Stop));
    match reply {
        Some(Reply::Text(m)) => assert_eq!(m, "{\"register\":\"failed, email is already used\"}"),
        _ => panic!("no duplicate reply"),
    }
    let (reply, step) = handle_pre_auth(&mut auth, register_request("\"b@example.com\"", "\"weak\"", "\"B\""));
    assert!(matches!(step, ConnectionStep::Stop));
    assert!(reply.is_none());
    let (reply, step) = handle_pre_auth(&mut auth, PreAuthRequest::Other);
    assert!(matches!(step, ConnectionStep::KeepReading));
    assert!(reply.is_none());
    assert_eq!(auth.users().len(), 1);
}

#[test]
fn login_reply_texts() {
    let t = Token::new("u@x.com".to_string(), "ID1".to_string(), Timestamp { secs: 0, nanos: 0 });
    assert_eq!(
        login_success_reply(&t, "E"),
        "{\"login\": {\"token\": {\"user\": \"u@x.com\", token_id: \"ID1\", \"expire_date\": \"E\"}}}"
    );
    assert_eq!(
        login_reply(&t).unwrap(),
        "{\"login\": {\"token\": {\"user\": \"u@x.com\", token_id: \"ID1\", \"expire_date\": \"1970-01-01 00:00:00 UTC\"}}}"
    );
    let far = Token::new("u".to_string(), "i".to_string(), Timestamp { secs: i64::MAX, nanos: 0 });
    assert!(login_reply(&far).is_none());
}

#[test]
fn tokens_are_read_from_json_fields() {
    let t = Token::new("u@x.com".to_string(), "ID1".to_string(), Timestamp { secs: 0, nanos: 0 });
    let read = serialize_to_token(&fields_for(&t, "2024-01-01T00:00:00Z")).unwrap();
    assert_eq!(read.get_user_id(), "u@x.com");
    assert_eq!(read.get_id(), "ID1");
    assert_eq!(read.get_expire(), Timestamp { secs: 1704067200, nanos: 0 });
    let shifted = serialize_to_token(&fields_for(&t, "2024-01-01T01:00:00.5+01:00")).unwrap();
    assert_eq!(shifted.get_expire(), Timestamp { secs: 1704067200, nanos: 500_000_000 });
    let missing = TokenFields { user: None, ..fields_for(&t, "2024-01-01T00:00:00Z") };
    assert!(serialize_to_token(&missing).is_none());
    assert!(matches!(try_serialize_to_token(&missing), Some(None)));
    assert!(try_serialize_to_token(&fields_for(&t, "yesterday")).is_none());
}

#[test]
fn client_logout_closes_the_session() {
    let (mut auth, token) = registered();
    let expire = format!("{}", chrono::DateTime::from_timestamp(token.get_expire().secs, token.get_expire().nanos).unwrap().to_rfc3339());
    let request = ClientRequest::Logout(fields_for(&token, &expire));
    match handle_client_request(&mut auth, &request, &ReplyStyle::Plain) {
        ClientAction::Close(m) => assert_eq!(m, "{logout: success}"),
        _ => panic!("logout did not close"),
    }
    assert!(!auth.has_session(&token.get_id()));
    assert!(!auth.users()[0].has_token(&token));
}

#[test]
fn client_requests_without_a_usable_token() {
    let (mut auth, token) = registered();
    let missing = ClientRequest::Logout(TokenFields { token_id: None, ..fields_for(&token, "x") });
    match handle_client_request(&mut auth, &missing, &ReplyStyle::Plain) {
        ClientAction::KeepReading(Some(m)) => assert_eq!(m, "{logout: failed token unable to be serialized}"),
        _ => panic!("unexpected action"),
    }
    match handle_client_request(&mut auth, &missing, &ReplyStyle::Json) {
        ClientAction::KeepReading(Some(m)) => {
            assert_eq!(m, "{\"logout\": \"failed token unable to be serialized\"}")
        }
        _ => panic!("unexpected action"),
    }
    let unreadable = ClientRequest::Logout(fields_for(&token, "not a date"));
    assert!(matches!(handle_client_request(&mut auth, &unreadable, &ReplyStyle::Plain), ClientAction::Abort));
    assert!(matches!(handle_client_request(&mut auth, &ClientRequest::Other, &ReplyStyle::Json), ClientAction::KeepReading(None)));
    assert!(auth.has_session(&token.get_id()));
}

fn json_field_of(value: &serde_json::Value) -> Option<JsonField> {
    Some(JsonField { text: value.to_string(), str_value: value.as_str().map(|s| s.to_string()) })
}

#[test]
fn issued_token_reads_back_from_its_json() {
    let (_, token) = registered();
    let expire = token.get_expire();
    let date = chrono::DateTime::from_timestamp(expire.secs, expire.nanos).unwrap();
    let text = format!(
        "{{\"user\":{},\"token_id\":{},\"expire_date\":{}}}",
        serde_json::to_string(&token.get_user_id()).unwrap(),
        serde_json::to_string(&token.get_id()).unwrap(),
        serde_json::to_string(&date).unwrap()
    );
    let value: serde_json::Value = serde_json::from_str(&text).unwrap();
    let fields = TokenFields {
        user: json_field_of(&value["user"]),
        token_id: json_field_of(&value["token_id"]),
        expire_date: json_field_of(&value["expire_date"]),
    };
    let back = serialize_to_token(&fields).unwrap();
    assert!(back.same_as(&token));
}

#[test]
fn pre_auth_messages_are_parsed_from_json() {
    match parse_pre_auth("{\"register\": {\"email\": \"a@b.com\", \"password\": \"Password12\", \"name\": \"Al\"}}") {
        Some(PreAuthRequest::Register { full_name, password, email }) => {
            assert_eq!(full_name, "Al");
            assert_eq!(password, "Password12");
            assert_eq!(email, "a@b.com");
        }
        _ => panic!("not a registration"),
    }
    match parse_pre_auth("{\"login\": {\"email\": \"a@b.com\", \"password\": 12}}") {
        Some(PreAuthRequest::Login { email, password }) => {
            assert_eq!(email, "a@b.com");
            assert_eq!(password, "12");
        }
        _ => panic!("not a login"),
    }
    assert!(matches!(parse_pre_auth("hello"), Some(PreAuthRequest::Other)));
    assert!(parse_pre_auth("{\"register\": {\"email\": \"a@b.com\"}}").is_none());
    assert!(parse_pre_auth("login please").is_none());
}

#[test]
fn client_messages_are_parsed_from_json() {
    assert!(parse_client_request("not json").is_none());
    assert!(matches!(parse_client_request("{\"watchlist_add\": {}}"), Some(ClientRequest::Other)));
    assert!(matches!(parse_client_request("[1, 2]"), Some(ClientRequest::Other)));
    assert!(parse_client_request("{\"logout\": {}}").is_none());
    match parse_client_request("{\"logout\": {\"token\": {\"user\": \"u\", \"expire_date\": \"2024-01-01T00:00:00Z\"}}}") {
        Some(ClientRequest::Logout(f)) => {
            let user = f.user.unwrap();
            assert_eq!(user.text, "\"u\"");
            assert_eq!(user.str_value.unwrap(), "u");
            assert!(f.token_id.is_none());
            assert_eq!(f.expire_date.unwrap().str_value.unwrap(), "2024-01-01T00:00:00Z");
        }
        _ => panic!("not a logout"),
    }
}

#[test]
fn logout_frame_from_registration_token_closes_session() {
    let (mut auth, token) = registered();
    let expire = token.get_expire();
    let date = chrono::DateTime::from_timestamp(expire.secs, expire.nanos).unwrap();
    let frame = format!(
        "{{\"logout\": {{\"token\": {{\"user\": {}, \"token_id\": {}, \"expire_date\": {}}}}}}}",
        serde_json::to_string(&token.get_user_id()).unwrap(),
        serde_json::to_string(&token.get_id()).unwrap(),
        serde_json::to_string(&date).unwrap()
    );
    let request = parse_client_request(&frame).unwrap();
    match handle_client_request(&mut auth, &request, &ReplyStyle::Json) {
        ClientAction::Close(m) => assert_eq!(m, "{\"logout\": \"success\"}"),
        _ => panic!("logout did not close"),
    }
    assert!(!auth.has_session(&token.get_id()));
}

#[test]
fn pre_auth_at_a_given_instant() {
    let mut auth = Authenticate::new("server".to_string());
    let now = Timestamp { secs: 0, nanos: 0 };
    let (reply, step) = trade_server::protocol::handle_pre_auth_at(
        &mut auth,
        register_request("\"e@example.com\"", "\"Password12\"", "\"E\""),
        now,
    );
    assert!(matches!(reply, Some(Reply::TokenJson(_))));
    match step {
        ConnectionStep::Authenticated(t) => assert_eq!(t.get_expire(), Timestamp { secs: 86400, nanos: 0 }),
        _ => panic!("not authenticated"),
    }
    let (reply, step) = trade_server::protocol::handle_pre_auth_at(
        &mut auth,
        login_request("\"e@example.com\"", "\"Password12\""),
        now,
    );
    match reply {
        Some(Reply::Text(m)) => assert!(m.ends_with("\"expire_date\": \"1970-01-02 00:00:00 UTC\"}}}")),
        _ => panic!("no login reply"),
    }
    assert!(matches!(step, ConnectionStep::Authenticated(_)));
}
