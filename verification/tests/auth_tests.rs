//! Registration, login, tokens, and the authentication replies, run
//! against the real hash and token crates.

use budget_server::auth::{
    auth_response, get_uuid_from_token, login_decision, mint_token, parse_credentials,
    prepare_registration, registration_outcome, AuthError, StoreOutcome, UserAuthRow, UserInfo,
};
use budget_server::budget::Budget;
use budget_server::http_utils::serialize_response;
use budget_server::json::serialize_budget;

#[test]
fn credentials_parse_and_reject() {
    let ok = parse_credentials("{\"username\":\"a\",\"password\":\"p\"}").unwrap();
    assert_eq!(ok.username, "a");
    assert_eq!(ok.password, "p");
    assert_eq!(parse_credentials("not json"), Err(AuthError::BadRequest));
    assert_eq!(parse_credentials("{\"username\":\"a\"}"), Err(AuthError::BadRequest));
    assert_eq!(
        parse_credentials("{\"username\":\"\",\"password\":\"p\"}"),
        Err(AuthError::BadCredentials)
    );
}

#[test]
fn registration_yields_verifiable_hash_and_fresh_budget() {
    let plan = prepare_registration("{\"username\":\"a\",\"password\":\"p\"}").unwrap();
    assert_eq!(plan.username, "a");
    assert_eq!(plan.user_id.len(), 36);
    assert_ne!(plan.password_hash, "p");
    assert_eq!(plan.initial_budget, serialize_budget(&Budget::new(String::from("a"))));

    let row = UserAuthRow {
        uuid: plan.user_id.clone(),
        username: plan.username.clone(),
        password: plan.password_hash.clone(),
    };
    let creds = parse_credentials("{\"username\":\"a\",\"password\":\"p\"}").unwrap();
    let info = login_decision(&creds, Some(&row)).unwrap();
    assert_eq!(info.id, plan.user_id);
    assert_eq!(info.username, "a");

    let wrong = parse_credentials("{\"username\":\"a\",\"password\":\"zzz\"}").unwrap();
    assert_eq!(login_decision(&wrong, Some(&row)), Err(AuthError::BadCredentials));
    assert_eq!(login_decision(&creds, None), Err(AuthError::BadCredentials));
}

#[test]
fn two_registrations_get_distinct_ids() {
    let p1 = prepare_registration("{\"username\":\"a\",\"password\":\"p\"}").unwrap();
    let p2 = prepare_registration("{\"username\":\"a\",\"password\":\"p\"}").unwrap();
    assert_ne!(p1.user_id, p2.user_id);
}

#[test]
fn store_outcomes_map_to_errors() {
    assert_eq!(
        registration_outcome(&StoreOutcome::ConstraintViolation, &StoreOutcome::Success),
        Err(AuthError::AlreadyExists)
    );
    assert_eq!(
        registration_outcome(&StoreOutcome::OtherFailure, &StoreOutcome::Success),
        Err(AuthError::BadRequest)
    );
    assert_eq!(
        registration_outcome(&StoreOutcome::Success, &StoreOutcome::OtherFailure),
        Err(AuthError::BadRequest)
    );
    assert_eq!(registration_outcome(&StoreOutcome::Success, &StoreOutcome::Success), Ok(()));
}

#[test]
fn token_round_trips_through_the_signer() {
    let secret = String::from("SECRET-REDACTED");
    let info = UserInfo { id: String::from("11111111-2222-3333-4444-555555555555"), username: String::from("a") };
    let (token, exp) = mint_token(&info, &secret);
    assert!(!token.is_empty());
    let id = get_uuid_from_token(&token, &secret, 0).unwrap();
    assert_eq!(id, "11111111-2222-3333-4444-555555555555");
    // a reading at or past the expiry refuses the token
    assert_eq!(
        get_uuid_from_token(&token, &secret, exp as i64),
        Err(String::from("INVALID TOKEN"))
    );
    let other = String::from("another-key");
    assert_eq!(get_uuid_from_token(&token, &other, 0), Err(String::from("INVALID TOKEN")));
}

#[test]
fn auth_replies_carry_token_or_error() {
    let ok: Result<(String, String), AuthError> =
        Ok((String::from("uid"), String::from("tok.en")));
    let r = auth_response(&ok);
    assert_eq!(r.status, 201);
    let text = String::from_utf8(serialize_response(&r)).unwrap();
    assert!(text.contains("{\"token\":\"tok.en\"}"));
    assert!(text.contains("Location: /home\r\n"));
    assert!(text.starts_with("HTTP/1.1 201 Created\r\n"));

    let dup: Result<(String, String), AuthError> = Err(AuthError::AlreadyExists);
    let rd = auth_response(&dup);
    assert_eq!(rd.status, 400);
    let td = String::from_utf8(serialize_response(&rd)).unwrap();
    assert!(td.contains("{\"error\":\"Account already exists!\"}"));

    let bad: Result<(String, String), AuthError> = Err(AuthError::BadCredentials);
    assert_eq!(auth_response(&bad).status, 400);
}

#[test]
fn register_then_immediately_query() {
    // the authentication side mints the session
    let plan = prepare_registration("{\"username\":\"a\",\"password\":\"p\"}").unwrap();
    let info = UserInfo { id: plan.user_id.clone(), username: plan.username.clone() };
    let secret = String::from("k");
    let (token, _exp) = mint_token(&info, &secret);
    assert!(!token.is_empty());

    // the manager records the session and routes the token
    let mut table = budget_server::user_threads::SessionTable::new();
    table.creation(token.clone(), 0);
    assert_eq!(table.lookup(&token), Some(0));

    // the user actor loads the stored record and serves the snapshot
    let budget = budget_server::json::parse_budget(&plan.initial_budget).unwrap();
    assert_eq!(budget.username(), "a");
    assert_eq!(budget.income(), 0);
    assert_eq!(budget.expense_count(), 0);
    let mut session =
        budget_server::user_threads::UserSession::start(plan.user_id.clone(), budget, 0);
    match session.handle_message(budget_server::user_threads::UserThreadCommandType::UserDataRequest, 1)
    {
        budget_server::user_threads::ActorStep::Reply { response, .. } => {
            assert_eq!(response.status, 200);
            let body = String::from_utf8(response.body).unwrap();
            assert!(body.contains("\"username\":\"a\""));
            assert!(body.contains("\"expected_income\":0"));
        }
        _ => panic!("expected the budget snapshot"),
    }

    // an unknown token stays outside
    assert_eq!(table.lookup(&String::from("X")), None);
}

#[test]
fn escaped_credentials_are_accepted() {
    let c = parse_credentials("{\"username\":\"a\\\\b\",\"password\":\"p\\\"q\"}").unwrap();
    assert_eq!(c.username, "a\\b");
    assert_eq!(c.password, "p\"q");
    assert_eq!(
        parse_credentials("{\"username\":\"a\\zb\",\"password\":\"p\"}"),
        Err(AuthError::BadRequest)
    );
}
