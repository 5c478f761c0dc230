use zyvor_fabricd::auth::{
    login, Check, Credentials, LoginRateLimiter, LoginRefusal, TotpCheck, UserRole,
};

fn stored(password: Check, totp: TotpCheck) -> Credentials {
    Credentials::Stored {
        user_id: "u-1".into(),
        role: UserRole::Viewer,
        password,
        totp,
    }
}

fn system(answer: Check, totp: TotpCheck, admin_group: bool) -> Credentials {
    Credentials::System {
        answer,
        totp,
        admin_group,
    }
}

#[test]
fn login_checks_the_username_first() {
    let mut users = LoginRateLimiter::new(5, 60);
    let mut global = LoginRateLimiter::new(50, 60);
    let r = login(&mut users, &mut global, "bad name", 0, true, stored(Check::Passed, TotpCheck::Off));
    assert_eq!(r, Err(LoginRefusal::InvalidUsername));
    assert_eq!(LoginRefusal::InvalidUsername.status(), 400);
    assert_eq!(LoginRefusal::InvalidUsername.message(), "Invalid username format");
}

#[test]
fn stored_user_logs_in_with_its_role() {
    let mut users = LoginRateLimiter::new(5, 60);
    let mut global = LoginRateLimiter::new(50, 60);
    let r = login(&mut users, &mut global, "alice", 0, true, stored(Check::Passed, TotpCheck::Off));
    assert_eq!(r, Ok(("u-1".to_string(), UserRole::Viewer)));
}

#[test]
fn wrong_passwords_lead_to_the_limit() {
    let mut users = LoginRateLimiter::new(2, 60);
    let mut global = LoginRateLimiter::new(50, 60);
    for t in 0..2u64 {
        let r = login(&mut users, &mut global, "alice", t, true, stored(Check::Failed, TotpCheck::Off));
        assert_eq!(r, Err(LoginRefusal::InvalidCredentials));
    }
    let r = login(&mut users, &mut global, "alice", 3, true, stored(Check::Passed, TotpCheck::Off));
    assert_eq!(r, Err(LoginRefusal::TooManyAttempts));
    assert_eq!(LoginRefusal::TooManyAttempts.status(), 429);
    // Another user is not held back by alice's failures.
    let r = login(&mut users, &mut global, "bob", 3, true, stored(Check::Passed, TotpCheck::Off));
    assert!(r.is_ok());
}

#[test]
fn global_limit_counts_every_user() {
    let mut users = LoginRateLimiter::new(5, 60);
    let mut global = LoginRateLimiter::new(2, 60);
    let _ = login(&mut users, &mut global, "a", 0, true, system(Check::Failed, TotpCheck::Off, false));
    let _ = login(&mut users, &mut global, "b", 0, true, system(Check::Failed, TotpCheck::Off, false));
    let r = login(&mut users, &mut global, "c", 1, true, stored(Check::Passed, TotpCheck::Off));
    assert_eq!(r, Err(LoginRefusal::TooManyAttempts));
}

#[test]
fn success_forgets_earlier_failures() {
    let mut users = LoginRateLimiter::new(2, 60);
    let mut global = LoginRateLimiter::new(50, 60);
    let _ = login(&mut users, &mut global, "alice", 0, true, stored(Check::Failed, TotpCheck::Off));
    let r = login(&mut users, &mut global, "alice", 1, true, stored(Check::Passed, TotpCheck::Off));
    assert!(r.is_ok());
    let _ = login(&mut users, &mut global, "alice", 2, true, stored(Check::Failed, TotpCheck::Off));
    // One failure since the success: still under the limit of two.
    let r = login(&mut users, &mut global, "alice", 3, true, stored(Check::Passed, TotpCheck::Off));
    assert!(r.is_ok());
}

#[test]
fn disabled_auth_refuses_after_the_limits() {
    let mut users = LoginRateLimiter::new(5, 60);
    let mut global = LoginRateLimiter::new(50, 60);
    let r = login(&mut users, &mut global, "alice", 0, false, stored(Check::Passed, TotpCheck::Off));
    assert_eq!(r, Err(LoginRefusal::AuthDisabled));
    assert_eq!(LoginRefusal::AuthDisabled.status(), 503);
}

#[test]
fn second_factor_is_asked_of_stored_users() {
    let mut users = LoginRateLimiter::new(5, 60);
    let mut global = LoginRateLimiter::new(50, 60);
    let r = login(&mut users, &mut global, "alice", 0, true, stored(Check::Passed, TotpCheck::Missing));
    assert_eq!(r, Err(LoginRefusal::CodeRequired));
    assert_eq!(LoginRefusal::CodeRequired.status(), 403);
    assert_eq!(LoginRefusal::CodeRequired.message(), "2FA code required");
    let r = login(
        &mut users,
        &mut global,
        "alice",
        0,
        true,
        stored(Check::Passed, TotpCheck::Checked(Check::Failed)),
    );
    assert_eq!(r, Err(LoginRefusal::InvalidCode));
    let r = login(&mut users, &mut global, "alice", 0, true, stored(Check::Passed, TotpCheck::NoSecret));
    assert!(r.is_ok());
    let r = login(
        &mut users,
        &mut global,
        "alice",
        0,
        true,
        stored(Check::Passed, TotpCheck::Checked(Check::Errored)),
    );
    assert_eq!(r, Err(LoginRefusal::Internal));
    assert_eq!(LoginRefusal::Internal.status(), 500);
}

#[test]
fn system_users_get_admin_from_root_or_group() {
    let mut users = LoginRateLimiter::new(5, 60);
    let mut global = LoginRateLimiter::new(50, 60);
    let r = login(&mut users, &mut global, "root", 0, true, system(Check::Passed, TotpCheck::Off, false));
    assert_eq!(r, Ok(("root".to_string(), UserRole::Admin)));
    let r = login(&mut users, &mut global, "ops", 0, true, system(Check::Passed, TotpCheck::Off, true));
    assert_eq!(r, Ok(("ops".to_string(), UserRole::Admin)));
    let r = login(&mut users, &mut global, "dev", 0, true, system(Check::Passed, TotpCheck::Off, false));
    assert_eq!(r, Ok(("dev".to_string(), UserRole::User)));
    let r = login(&mut users, &mut global, "dev", 0, true, system(Check::Errored, TotpCheck::Off, false));
    assert_eq!(r, Err(LoginRefusal::Internal));
}

#[test]
fn a_missing_code_does_not_count_as_a_failure() {
    let mut users = LoginRateLimiter::new(1, 60);
    let mut global = LoginRateLimiter::new(50, 60);
    for _ in 0..3 {
        let r = login(&mut users, &mut global, "alice", 0, true, stored(Check::Passed, TotpCheck::Missing));
        assert_eq!(r, Err(LoginRefusal::CodeRequired));
    }
    let r = login(&mut users, &mut global, "alice", 0, true, stored(Check::Passed, TotpCheck::Off));
    assert!(r.is_ok());
}

#[test]
fn wrong_codes_lead_to_the_limit() {
    let mut users = LoginRateLimiter::new(5, 300);
    let mut global = LoginRateLimiter::new(50, 300);
    for t in 0..5u64 {
        let r = login(
            &mut users,
            &mut global,
            "alice",
            t * 1000,
            true,
            stored(Check::Passed, TotpCheck::Checked(Check::Failed)),
        );
        assert_eq!(r, Err(LoginRefusal::InvalidCode));
    }
    let r = login(&mut users, &mut global, "alice", 6000, true, stored(Check::Passed, TotpCheck::Off));
    assert_eq!(r, Err(LoginRefusal::TooManyAttempts));
}

#[test]
fn failures_at_different_times_count_while_in_the_window() {
    let mut l = LoginRateLimiter::new(3, 60);
    l.record_failure("k", 0);
    l.record_failure("k", 10_000);
    assert!(!l.is_limited("k", 20_000));
    l.record_failure("k", 20_000);
    assert!(l.is_limited("k", 30_000));
    assert!(l.is_limited("k", 30_000));
    // The first failure has left the window.
    assert!(!l.is_limited("k", 61_000));
    assert!(!l.is_limited("never", 61_000));
    l.clear("k");
    assert!(!l.is_limited("k", 61_001));
}

#[test]
fn a_right_password_with_a_wrong_code_does_not_unblock() {
    let mut users = LoginRateLimiter::new(5, 300);
    let mut global = LoginRateLimiter::new(50, 300);
    for _ in 0..4 {
        let r = login(&mut users, &mut global, "ops", 0, true, system(Check::Failed, TotpCheck::Off, false));
        assert_eq!(r, Err(LoginRefusal::InvalidCredentials));
    }
    let r = login(
        &mut users,
        &mut global,
        "ops",
        0,
        true,
        system(Check::Passed, TotpCheck::Checked(Check::Failed), false),
    );
    assert_eq!(r, Err(LoginRefusal::InvalidCode));
    let r = login(&mut users, &mut global, "ops", 0, true, system(Check::Passed, TotpCheck::Off, false));
    assert_eq!(r, Err(LoginRefusal::TooManyAttempts));
}

#[test]
fn a_missing_code_does_not_clear_failures() {
    let mut users = LoginRateLimiter::new(2, 300);
    let mut global = LoginRateLimiter::new(50, 300);
    let _ = login(&mut users, &mut global, "ops", 0, true, system(Check::Failed, TotpCheck::Off, false));
    let r = login(&mut users, &mut global, "ops", 0, true, system(Check::Passed, TotpCheck::Missing, false));
    assert_eq!(r, Err(LoginRefusal::CodeRequired));
    let _ = login(&mut users, &mut global, "ops", 0, true, system(Check::Failed, TotpCheck::Off, false));
    let r = login(&mut users, &mut global, "ops", 0, true, system(Check::Passed, TotpCheck::Off, false));
    assert_eq!(r, Err(LoginRefusal::TooManyAttempts));
}

#[test]
fn refused_logins_spread_over_the_window_block_until_the_oldest_ages_out() {
    let mut users = LoginRateLimiter::new(5, 300);
    let mut global = LoginRateLimiter::new(50, 300);
    for t in [0u64, 60_000, 120_000, 180_000, 240_000] {
        let r = login(&mut users, &mut global, "ops", t, true, system(Check::Failed, TotpCheck::Off, false));
        assert_eq!(r, Err(LoginRefusal::InvalidCredentials));
    }
    let r = login(&mut users, &mut global, "ops", 299_999, true, system(Check::Passed, TotpCheck::Off, false));
    assert_eq!(r, Err(LoginRefusal::TooManyAttempts));
    let r = login(&mut users, &mut global, "ops", 300_000, true, system(Check::Passed, TotpCheck::Off, false));
    assert!(r.is_ok());
}

#[test]
fn earlier_failures_still_inside_the_window_add_to_later_refusals() {
    let mut users = LoginRateLimiter::new(3, 300);
    let mut global = LoginRateLimiter::new(50, 300);
    let r = login(&mut users, &mut global, "ops", 0, true, system(Check::Failed, TotpCheck::Off, false));
    assert_eq!(r, Err(LoginRefusal::InvalidCredentials));
    for _ in 0..2 {
        let r = login(
            &mut users,
            &mut global,
            "ops",
            100_000,
            true,
            system(Check::Passed, TotpCheck::Checked(Check::Failed), false),
        );
        assert_eq!(r, Err(LoginRefusal::InvalidCode));
    }
    let r = login(&mut users, &mut global, "ops", 100_000, true, system(Check::Passed, TotpCheck::Off, false));
    assert_eq!(r, Err(LoginRefusal::TooManyAttempts));
}

#[test]
fn a_fresh_limiter_counts_recorded_failures_against_its_maximum() {
    let mut lim = LoginRateLimiter::new(3, 300);
    lim.record_failure("k", 0);
    lim.record_failure("k", 1_000);
    assert!(!lim.is_limited("k", 2_000));
    lim.record_failure("k", 2_000);
    assert!(lim.is_limited("k", 3_000));
    assert!(lim.is_limited("k", 3_000));
    assert!(!lim.is_limited("k2", 3_000));
}
