use trade_server::authentication::{
    parse_credentials, Authenticate, LoginError, LogoutError, RegisterError,
};
use trade_server::clock::Timestamp;
use trade_server::token::{generate_rand, Token, TOKENLENGTH};
use trade_server::user::User;

fn now_secs() -> i64 {
    std::time::SystemTime::now()
        .duration_since(std::time::UNIX_EPOCH)
        .unwrap()
        .as_secs() as i64
}

fn registered_service() -> (Authenticate, Token) {
    let mut auth = Authenticate::new("server@example.com".to_string());
    let token = auth
        .register_user("Ann".to_string(), "Password12".to_string(), "ann@example.com".to_string())
        .ok()
        .expect("registration succeeds");
    (auth, token)
}

#[test]
fn generated_identifiers_are_ten_alphanumerics() {
    let a = generate_rand();
    let b = generate_rand();
    assert_eq!(a.chars().count(), TOKENLENGTH);
    assert!(a.chars().all(|c| c.is_ascii_alphanumeric()));
    assert!(b.chars().all(|c| c.is_ascii_alphanumeric()));
    assert_ne!(a, b);
}

#[test]
fn token_and_user_accessors() {
    let t = Token::new("u@x.com".to_string(), "ABC".to_string(), Timestamp { secs: 5, nanos: 1 });
    assert_eq!(t.get_user_id(), "u@x.com");
    assert_eq!(t.get_id(), "ABC");
    assert_eq!(t.get_expire(), Timestamp { secs: 5, nanos: 1 });
    assert!(t.same_as(&t.duplicate()));
    let mut u = User::new("u@x.com".to_string(), "U".to_string(), "pw".to_string());
    assert_eq!(u.get_user_id(), "u@x.com");
    assert_eq!(u.get_pass_id(), "pw");
    assert!(!u.has_token(&t));
    u.add_token(t.duplicate());
    assert!(u.has_token(&t));
    u.remove_tokens(&vec![t.duplicate()]);
    assert!(!u.has_token(&t));
}

#[test]
fn registration_issues_a_day_long_token() {
    let before = now_secs();
    let (auth, token) = registered_service();
    assert_eq!(token.get_user_id(), "ann@example.com");
    assert_eq!(token.get_id().chars().count(), TOKENLENGTH);
    assert!(auth.has_session(&token.get_id()));
    let expire = token.get_expire().secs;
    assert!(expire >= before + 86400 && expire <= now_secs() + 86400);
    assert_eq!(auth.users().len(), 1);
    assert!(auth.users()[0].has_token(&token));
    assert_eq!(auth.users()[0].get_pass_id(), "Password12");
}

#[test]
fn registration_refusals() {
    let (mut auth, _) = registered_service();
    match auth.register_user("B".to_string(), "short".to_string(), "b@example.com".to_string()) {
        Err(e) => {
            assert!(matches!(e, RegisterError::WeakPassword));
            assert_eq!(e.message(), "password does not satisfy");
            assert!(e.reply().is_none());
        }
        Ok(_) => panic!("weak password accepted"),
    }
    match auth.register_user("B".to_string(), "Password12".to_string(), "not-an-email".to_string()) {
        Err(e) => {
            assert!(matches!(e, RegisterError::InvalidEmail(_)));
            assert_eq!(e.message(), "not-an-email does not satisfy being an email.");
        }
        Ok(_) => panic!("invalid email accepted"),
    }
    match auth.register_user("B".to_string(), "Password12".to_string(), "ann@example.com".to_string()) {
        Err(e) => {
            assert_eq!(e.message(), "ann@example.com is already used");
            assert_eq!(e.reply().unwrap(), "{\"register\":\"failed, email is already used\"}");
        }
        Ok(_) => panic!("duplicate email accepted"),
    }
    assert_eq!(auth.users().len(), 1);
}

#[test]
fn registered_account_can_log_in() {
    let (mut auth, first) = registered_service();
    let token = auth
        .login_user("ann@example.com".to_string(), "Password12".to_string())
        .ok()
        .expect("login succeeds");
    assert_eq!(token.get_user_id(), "ann@example.com");
    assert_ne!(token.get_id(), first.get_id());
    assert!(auth.has_session(&token.get_id()));
    assert!(auth.has_session(&first.get_id()));
    // The login token is issued to a copy of the account: the stored account keeps one token.
    assert!(!auth.users()[0].has_token(&token));
    assert!(auth.users()[0].has_token(&first));
}

#[test]
fn wrong_password_is_refused() {
    let (mut auth, _) = registered_service();
    match auth.login_user("ann@example.com".to_string(), "Password13".to_string()) {
        Err(e) => {
            assert!(matches!(e, LoginError::AuthenticationFailed));
            assert_eq!(e.message(), "authentication failed");
        }
        Ok(_) => panic!("wrong password accepted"),
    }
}

#[test]
fn logout_revokes_the_token_and_is_idempotent() {
    let (mut auth, token) = registered_service();
    let r = auth.logout_user(token.duplicate());
    match r {
        Err(e) => {
            assert!(matches!(e, LogoutError::TokenNotFound));
            assert_eq!(e.message(), "token not found");
        }
        Ok(()) => panic!("logout reported success"),
    }
    assert!(!auth.has_session(&token.get_id()));
    assert!(!auth.users()[0].has_token(&token));
    assert!(auth.logout_user(token.duplicate()).is_err());
    assert!(!auth.has_session(&token.get_id()));
    assert_eq!(auth.users().len(), 1);
}

#[test]
fn logout_of_a_token_no_account_holds_keeps_its_session() {
    let (mut auth, _) = registered_service();
    let token = auth
        .login_user("ann@example.com".to_string(), "Password12".to_string())
        .ok()
        .unwrap();
    assert!(auth.logout_user(token.duplicate()).is_err());
    assert!(auth.has_session(&token.get_id()));
}

#[test]
fn expiry_clears_only_expired_sessions() {
    let (mut auth, token) = registered_service();
    auth.expire_tokens(Timestamp { secs: 0, nanos: 0 });
    assert!(auth.has_session(&token.get_id()));
    assert!(auth.users()[0].has_token(&token));
    auth.clear_expired_tokens();
    assert!(auth.has_session(&token.get_id()));
    let mut later = token.get_expire();
    auth.expire_tokens(later);
    assert!(auth.has_session(&token.get_id()));
    later.nanos += 1;
    auth.expire_tokens(later);
    assert!(!auth.has_session(&token.get_id()));
    assert!(!auth.users()[0].has_token(&token));
}

#[test]
fn credentials_file_is_split_into_user_and_password() {
    let (user, pass) = parse_credentials("mailer@example.com\nse\ncret\n");
    assert_eq!(user, "mailer@example.com");
    assert_eq!(pass, "secret");
    let (user, pass) = parse_credentials("only");
    assert_eq!(user, "only");
    assert_eq!(pass, "");
    let (user, pass) = parse_credentials("\nsecret");
    assert_eq!(user, "");
    assert_eq!(pass, "secret");
}

#[test]
fn registration_with_given_token_parts_is_exact() {
    let mut auth = Authenticate::new("server".to_string());
    let expire = Timestamp { secs: 1_000, nanos: 7 };
    let t = auth
        .register_user_with("Bo".to_string(), "Password12".to_string(), "bo@example.com".to_string(), "ID0000000A".to_string(), expire)
        .ok()
        .unwrap();
    assert_eq!(t.get_id(), "ID0000000A");
    assert_eq!(t.get_user_id(), "bo@example.com");
    assert_eq!(t.get_expire(), expire);
    assert!(auth.has_session(&"ID0000000A".to_string()));
    let l = auth
        .login_user_with("bo@example.com".to_string(), "Password12".to_string(), "ID0000000B".to_string(), expire)
        .ok()
        .unwrap();
    assert_eq!(l.get_id(), "ID0000000B");
    assert!(auth.has_session(&"ID0000000B".to_string()));
    assert!(matches!(
        auth.login_user_with("bo@example.com".to_string(), "x".to_string(), "ID0000000C".to_string(), expire),
        Err(LoginError::AuthenticationFailed)
    ));
    assert!(!auth.has_session(&"ID0000000C".to_string()));
    // The session expires at `expire`, which lies before any instant of today's clock.
    auth.clear_expired_tokens();
    assert!(!auth.has_session(&"ID0000000A".to_string()));
    assert!(!auth.users()[0].has_token(&t));
}

#[test]
fn account_name_and_tokens_are_readable() {
    let (auth, token) = registered_service();
    let user = &auth.users()[0];
    assert_eq!(user.get_name(), "Ann");
    assert_eq!(user.tokens().len(), 1);
    assert!(user.tokens()[0].same_as(&token));
}

#[test]
fn tokens_expire_one_day_after_the_given_instant() {
    let mut auth = Authenticate::new("server".to_string());
    let now = Timestamp { secs: 1_700_000_000, nanos: 5 };
    let t = auth
        .register_user_at("Cy".to_string(), "Password12".to_string(), "cy@example.com".to_string(), now)
        .ok()
        .unwrap();
    assert_eq!(t.get_expire(), Timestamp { secs: 1_700_086_400, nanos: 5 });
    assert_eq!(t.get_id().chars().count(), TOKENLENGTH);
    let l = auth
        .login_user_at("cy@example.com".to_string(), "Password12".to_string(), now)
        .ok()
        .unwrap();
    assert_eq!(l.get_expire(), Timestamp { secs: 1_700_086_400, nanos: 5 });
    assert!(auth.has_session(&l.get_id()));
    let far = Timestamp { secs: i64::MAX, nanos: 0 };
    assert!(matches!(
        auth.login_user_at("cy@example.com".to_string(), "Password12".to_string(), far),
        Err(LoginError::TokenUnavailable)
    ));
    assert!(matches!(
        auth.register_user_at("Di".to_string(), "Password12".to_string(), "di@example.com".to_string(), far),
        Err(RegisterError::TokenUnavailable)
    ));
    assert_eq!(auth.users().len(), 1);
    assert!(matches!(
        auth.login_user_at("cy@example.com".to_string(), "wrong".to_string(), now),
        Err(LoginError::AuthenticationFailed)
    ));
}
