use device_lock::lock::LockState;
use device_lock::request::{
    dispatch, extract_credential, find_get_line, submitted, toggle_lock, LOCK_PASS_TOKEN,
    UNLOCK_PASS_TOKEN,
};

const SECRET: &str = "abc123";

#[test]
fn get_line_is_the_first_line_that_opens_with_get() {
    assert_eq!(
        find_get_line(b"GET /lock?password=x HTTP/1.0\r\nHost: a\r\n\r\n"),
        Some(&b"GET /lock?password=x HTTP/1.0"[..])
    );
    assert_eq!(
        find_get_line(b"POST / HTTP/1.0\r\nGET /a\r\nGET /b\r\n"),
        Some(&b"GET /a"[..])
    );
    assert_eq!(find_get_line(b"\nGET /a"), Some(&b"GET /a"[..]));
    assert_eq!(find_get_line(b"GET"), Some(&b"GET"[..]));
}

#[test]
fn get_line_ends_at_the_line_feed() {
    assert_eq!(find_get_line(b"GET /a\nrest"), Some(&b"GET /a"[..]));
    assert_eq!(find_get_line(b"GET /a\r\nrest"), Some(&b"GET /a"[..]));
    assert_eq!(find_get_line(b"GET /a\r\r\nrest"), Some(&b"GET /a\r"[..]));
}

#[test]
fn get_line_that_is_not_terminated_keeps_its_carriage_return() {
    assert_eq!(find_get_line(b"GET /a\r"), Some(&b"GET /a\r"[..]));
    assert_eq!(find_get_line(b"GET /a"), Some(&b"GET /a"[..]));
}

#[test]
fn get_line_is_missing_where_no_line_opens_with_get() {
    assert_eq!(find_get_line(b""), None);
    assert_eq!(find_get_line(b"GE"), None);
    assert_eq!(find_get_line(b"POST /GET HTTP/1.0\r\n\r\n"), None);
    assert_eq!(find_get_line(b" GET / HTTP/1.0\r\n"), None);
    assert_eq!(find_get_line(b"get / HTTP/1.0\r\n"), None);
    assert_eq!(find_get_line(b"GE\nT /a\n"), None);
}

#[test]
fn credential_is_what_follows_the_prefix_in_its_token() {
    assert_eq!(
        extract_credential(b"GET /lock?password=abc123 HTTP/1.0", b"/lock?password="),
        Some(&b"abc123"[..])
    );
    assert_eq!(
        extract_credential(b"GET /lock?password=abc123", b"/lock?password="),
        Some(&b"abc123"[..])
    );
    assert_eq!(
        extract_credential(b"GET /lock?password= HTTP/1.0", b"/lock?password="),
        Some(&b""[..])
    );
    assert_eq!(
        extract_credential(b"GET http://host/lock?password=abc HTTP/1.0", b"/lock?password="),
        Some(&b"abc"[..])
    );
}

#[test]
fn credential_comes_from_the_first_token_that_holds_the_prefix() {
    assert_eq!(
        extract_credential(b"GET /lock?password=one /lock?password=two", b"/lock?password="),
        Some(&b"one"[..])
    );
    assert_eq!(
        extract_credential(b"GET /lock?password=/lock?password=two x", b"/lock?password="),
        Some(&b"/lock?password=two"[..])
    );
}

#[test]
fn credential_is_missing_where_no_token_holds_the_prefix() {
    assert_eq!(extract_credential(b"GET /status HTTP/1.0", b"/lock?password="), None);
    assert_eq!(extract_credential(b"GET /unlock?password=abc", b"/lock?password="), None);
    assert_eq!(extract_credential(b"GET /lock ?password=abc", b"/lock?password="), None);
    assert_eq!(extract_credential(b"", b"/lock?password="), None);
}

#[test]
fn credential_under_a_prefix_with_a_space_is_missing() {
    assert_eq!(extract_credential(b"GET /lock abc HTTP/1.0", b"/lock "), None);
    assert_eq!(extract_credential(b"GET /lock abc HTTP/1.0", b" "), None);
}

#[test]
fn submitted_reads_the_get_line_only() {
    assert_eq!(
        submitted(b"X /lock?password=no\r\nGET /lock?password=yes HTTP/1.0\r\n", b"/lock?password="),
        Some(&b"yes"[..])
    );
    assert_eq!(
        submitted(b"GET / HTTP/1.0\r\nReferer: /lock?password=abc123\r\n", b"/lock?password="),
        None
    );
    assert_eq!(submitted(b"POST /lock?password=abc123 HTTP/1.0\r\n", b"/lock?password="), None);
    assert_eq!(
        submitted(b"GET /lock?password=abc123\r\nHost: a\r\n", b"/lock?password="),
        Some(&b"abc123"[..])
    );
}

#[test]
fn right_credential_locks_whatever_the_state_was() {
    for before in [LockState::Locked, LockState::Unlocked] {
        let mut state = before;
        let has_error = toggle_lock(
            b"GET /lock?password=abc123 HTTP/1.0\r\n\r\n",
            &mut state,
            LOCK_PASS_TOKEN,
            true,
            SECRET,
        );
        assert!(!has_error);
        assert_eq!(state, LockState::Locked);
    }
}

#[test]
fn right_credential_unlocks_whatever_the_state_was() {
    for before in [LockState::Locked, LockState::Unlocked] {
        let mut state = before;
        let has_error = toggle_lock(
            b"GET /unlock?password=abc123 HTTP/1.0\r\n\r\n",
            &mut state,
            UNLOCK_PASS_TOKEN,
            false,
            SECRET,
        );
        assert!(!has_error);
        assert_eq!(state, LockState::Unlocked);
    }
}

#[test]
fn wrong_credential_leaves_the_state_and_is_an_error() {
    for before in [LockState::Locked, LockState::Unlocked] {
        for request in [
            &b"GET /lock?password=wrong HTTP/1.0\r\n\r\n"[..],
            &b"GET /lock?password=abc12 HTTP/1.0\r\n\r\n"[..],
            &b"GET /lock?password=abc1234 HTTP/1.0\r\n\r\n"[..],
            &b"GET /lock?password=ABC123 HTTP/1.0\r\n\r\n"[..],
            &b"GET /lock?password= HTTP/1.0\r\n\r\n"[..],
        ] {
            let mut state = before;
            assert!(toggle_lock(request, &mut state, LOCK_PASS_TOKEN, true, SECRET));
            assert_eq!(state, before);
            let mut state = before;
            assert!(toggle_lock(request, &mut state, LOCK_PASS_TOKEN, false, SECRET));
            assert_eq!(state, before);
        }
    }
}

#[test]
fn missing_credential_leaves_the_state_and_is_an_error() {
    let mut state = LockState::Unlocked;
    assert!(toggle_lock(b"GET /status HTTP/1.0\r\n\r\n", &mut state, LOCK_PASS_TOKEN, true, SECRET));
    assert_eq!(state, LockState::Unlocked);
    assert!(toggle_lock(b"", &mut state, LOCK_PASS_TOKEN, true, SECRET));
    assert_eq!(state, LockState::Unlocked);
    assert!(toggle_lock(
        b"POST /lock?password=abc123 HTTP/1.0\r\n\r\n",
        &mut state,
        LOCK_PASS_TOKEN,
        true,
        SECRET
    ));
    assert_eq!(state, LockState::Unlocked);
}

#[test]
fn unterminated_line_keeps_the_carriage_return_in_the_credential() {
    let mut state = LockState::Locked;
    assert!(toggle_lock(b"GET /unlock?password=abc123\r", &mut state, UNLOCK_PASS_TOKEN, false, SECRET));
    assert_eq!(state, LockState::Locked);
    assert!(!toggle_lock(
        b"GET /unlock?password=abc123\r\n",
        &mut state,
        UNLOCK_PASS_TOKEN,
        false,
        SECRET
    ));
    assert_eq!(state, LockState::Unlocked);
}

#[test]
fn same_correct_request_twice_changes_nothing_the_second_time() {
    let request = b"GET /lock?password=abc123 HTTP/1.0\r\n\r\n";
    let mut state = LockState::Unlocked;
    assert_eq!(dispatch(request, &mut state, SECRET), Some(false));
    assert_eq!(state, LockState::Locked);
    assert_eq!(dispatch(request, &mut state, SECRET), Some(false));
    assert_eq!(state, LockState::Locked);

    let request = b"GET /unlock?password=abc123 HTTP/1.0\r\n\r\n";
    assert_eq!(dispatch(request, &mut state, SECRET), Some(false));
    assert_eq!(state, LockState::Unlocked);
    assert_eq!(dispatch(request, &mut state, SECRET), Some(false));
    assert_eq!(state, LockState::Unlocked);
}

#[test]
fn dispatch_waits_for_a_get_line() {
    let mut state = LockState::Locked;
    assert_eq!(dispatch(b"", &mut state, SECRET), None);
    assert_eq!(dispatch(b"GE", &mut state, SECRET), None);
    assert_eq!(dispatch(b"POST /unlock?password=abc123 HTTP/1.0\r\n", &mut state, SECRET), None);
    assert_eq!(state, LockState::Locked);
}

#[test]
fn dispatch_of_an_unrecognized_path_changes_nothing() {
    for before in [LockState::Locked, LockState::Unlocked] {
        let mut state = before;
        assert_eq!(dispatch(b"GET /status HTTP/1.0\r\n\r\n", &mut state, SECRET), Some(false));
        assert_eq!(state, before);
        assert_eq!(dispatch(b"GET / HTTP/1.0\r\n\r\n", &mut state, SECRET), Some(false));
        assert_eq!(state, before);
    }
}

#[test]
fn dispatch_checks_lock_then_unlock() {
    let mut state = LockState::Locked;
    assert_eq!(
        dispatch(b"GET /unlock?password=abc123 /lock?password=abc123", &mut state, SECRET),
        Some(false)
    );
    assert_eq!(state, LockState::Unlocked);
    assert_eq!(
        dispatch(b"GET /lock?password=abc123 /unlock?password=nope", &mut state, SECRET),
        Some(true)
    );
    assert_eq!(state, LockState::Locked);
    assert_eq!(
        dispatch(b"GET /lock?password=nope /unlock?password=abc123", &mut state, SECRET),
        Some(false)
    );
    assert_eq!(state, LockState::Unlocked);
}

#[test]
fn unlock_token_is_not_taken_for_the_lock_token() {
    let mut state = LockState::Unlocked;
    assert_eq!(
        dispatch(b"GET /unlock?password=wrong HTTP/1.0\r\n\r\n", &mut state, SECRET),
        Some(true)
    );
    assert_eq!(state, LockState::Unlocked);
    assert_eq!(
        submitted(b"GET /unlock?password=abc123 HTTP/1.0\r\n\r\n", LOCK_PASS_TOKEN.as_bytes()),
        None
    );
}

#[test]
fn get_line_agrees_with_the_standard_line_splitting() {
    let requests = [
        "",
        "GET",
        "GET / HTTP/1.0",
        "GET / HTTP/1.0\r",
        "GET / HTTP/1.0\n",
        "GET / HTTP/1.0\r\n",
        "GET / HTTP/1.0\r\r\n",
        "\nGET /a\n",
        "\r\nGET /a\r\n\r\n",
        "POST /a\r\nGET /b\r\nGET /c\r\n",
        "POST /a\rGET /b\r\n",
        "X\n\nGET\n",
        "G\nE\nT\n",
        " GET /a\n",
        "GETGET\n",
    ];
    for request in requests {
        assert_eq!(
            find_get_line(request.as_bytes()),
            request.lines().find(|line| line.starts_with("GET")).map(|line| line.as_bytes()),
            "{:?}",
            request
        );
    }
}

#[test]
fn well_formed_requests_are_read_as_by_splitting_on_spaces() {
    let requests = [
        "GET /lock?password=abc123 HTTP/1.0\r\n\r\n",
        "GET /unlock?password=abc123 HTTP/1.1\r\nHost: device\r\n\r\n",
        "GET /lock?password= HTTP/1.0\r\n\r\n",
        "GET /lock?password=a%20b HTTP/1.0\r\n\r\n",
    ];
    for request in requests {
        for token in [LOCK_PASS_TOKEN, UNLOCK_PASS_TOKEN] {
            let by_splitting = request
                .split(" ")
                .find(|part| part.contains(token))
                .map(|part| part.replace(token, "").into_bytes());
            assert_eq!(
                submitted(request.as_bytes(), token.as_bytes()).map(|c| c.to_vec()),
                by_splitting,
                "{:?}",
                request
            );
        }
    }
}
