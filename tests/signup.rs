use endbasic_storage::error::{CommandError, ErrorKind, IoError};
use endbasic_storage::signup::{
    parse_boolean, read_bool_answer, validate_password_complexity, SignupCommand, SignupRequest,
    SignupStep,
};

/// Feeds `inputs` to a signup and returns the request (if submitted), the last step and all
/// the lines shown.
fn run_signup(inputs: &[&str]) -> (Option<SignupRequest>, SignupStep, String) {
    let cmd = SignupCommand::new();
    let (mut state, intro) = cmd.start();
    let mut output = intro;
    for input in inputs {
        let (prompt, _secret) = cmd.prompt(&state).expect("signup ended early");
        output.push(prompt.to_owned());
        let (next, out) = cmd.answer(state, input);
        output.extend(out);
        state = next;
    }
    assert!(cmd.prompt(&state).is_none());
    let step = state.step;
    let request = if step == SignupStep::Submit { Some(cmd.request(state)) } else { None };
    (request, step, output.join("\n"))
}

#[test]
fn test_validate_password_complexity_ok() {
    validate_password_complexity("theP4ssword").unwrap();
}

#[test]
fn test_validate_password_complexity_error() {
    assert!(validate_password_complexity("a").unwrap_err().contains("8 characters"));
    assert!(validate_password_complexity("abcdefg").unwrap_err().contains("8 characters"));
    assert!(validate_password_complexity("long enough").unwrap_err().contains("letters and numbers"));
    assert!(validate_password_complexity("1234567890").unwrap_err().contains("letters and numbers"));
}

#[test]
fn parse_boolean_literals() {
    for s in &["true", "TRUE", "yes", "Yes", "y", "Y"] {
        assert_eq!(Ok(true), parse_boolean(s));
    }
    for s in &["false", "no", "NO", "n", "N"] {
        assert_eq!(Ok(false), parse_boolean(s));
    }
    assert_eq!(Err("Invalid boolean literal 123".to_owned()), parse_boolean("123"));
    assert_eq!(Some(false), read_bool_answer("", false));
    assert_eq!(Some(true), read_bool_answer("", true));
    assert_eq!(Some(true), read_bool_answer("yes  ", false));
    assert_eq!(None, read_bool_answer("foo", false));
}

#[test]
fn test_signup_ok() {
    let (request, step, output) = run_signup(&[
        "the-username",
        "theP4ssword",
        "theP4ssword",
        "some@example.com",
        "",
        "y",
    ]);
    assert_eq!(SignupStep::Submit, step);
    let request = request.unwrap();
    assert_eq!("the-username", request.username);
    assert_eq!("theP4ssword", request.password);
    assert_eq!("some@example.com", request.email);
    assert!(!request.promotional_email);
    assert!(output.contains("Username: the-username"));
    assert!(output.contains("Email address: some@example.com"));
    assert!(output.contains("Promotional email: no"));
    assert_eq!(6, SignupCommand::new().finish(Ok(())).unwrap().len());
}

#[test]
fn test_signup_ok_with_promotional_email() {
    let (request, _, output) = run_signup(&[
        "foobar",
        "AnotherPassword5",
        "AnotherPassword5",
        "other@example.com",
        "yes",
        "y",
    ]);
    let request = request.unwrap();
    assert_eq!("foobar", request.username);
    assert_eq!("AnotherPassword5", request.password);
    assert_eq!("other@example.com", request.email);
    assert!(request.promotional_email);
    assert!(output.contains("Username: foobar"));
    assert!(output.contains("Email address: other@example.com"));
    assert!(output.contains("Promotional email: yes"));
}

#[test]
fn test_signup_ok_retry_inputs() {
    let (request, _, output) = run_signup(&[
        "the-username",
        "too simple",
        "123456",
        "AnotherPassword7",
        "does not match",
        "too simple",
        "123456",
        "AnotherPassword7",
        "AnotherPassword7",
        "some@example.com",
        "123",
        "n",
        "foo",
        "y",
    ]);
    let request = request.unwrap();
    assert_eq!("the-username", request.username);
    assert_eq!("AnotherPassword7", request.password);
    assert_eq!("some@example.com", request.email);
    assert!(!request.promotional_email);
    assert!(output.contains("Invalid input"));
    assert!(output.contains("Invalid password: Must contain"));
    assert!(output.contains("Passwords do not match"));
    assert!(output.contains("Username: the-username"));
    assert!(output.contains("Email address: some@example.com"));
    assert!(output.contains("Promotional email: no"));
}

#[test]
fn test_signup_abort() {
    let (request, step, output) =
        run_signup(&["the-username", "theP4ssword", "theP4ssword", "some@example.com", "", ""]);
    assert!(request.is_none());
    assert_eq!(SignupStep::Declined, step);
    assert!(output.contains("Username: the-username"));
    assert!(output.contains("Email address: some@example.com"));
    assert!(output.contains("Promotional email: no"));
}

#[test]
fn test_signup_process_error() {
    let (request, _, output) = run_signup(&[
        "the-username",
        "theP4ssword",
        "theP4ssword",
        "some@example.com",
        "",
        "true",
    ]);
    assert!(request.is_some());
    let err = SignupCommand::new()
        .finish(Err(IoError::new(ErrorKind::AlreadyExists, "Some error".to_owned())))
        .unwrap_err();
    match err {
        CommandError::Io(e) => assert_eq!("Some error", e.message),
        other => panic!("unexpected {:?}", other),
    }
    assert!(output.contains("Username: the-username"));
    assert!(output.contains("Email address: some@example.com"));
    assert!(output.contains("Promotional email: no"));
}

#[test]
fn signup_short_password_is_reprompted() {
    let cmd = SignupCommand::new();
    let (state, _) = cmd.start();
    let (state, _) = cmd.answer(state, "user");
    assert_eq!(SignupStep::Password, state.step);
    let (state, out) = cmd.answer(state, "short1");
    assert_eq!(SignupStep::Password, state.step);
    assert_eq!(vec!["Invalid password: Must be at least 8 characters long; try again."], out);
    let (state, out) = cmd.answer(state, "GoodPass1");
    assert!(out.is_empty());
    assert_eq!(SignupStep::RetypePassword, state.step);
    assert_eq!(Some(("Retype password: ", true)), cmd.prompt(&state));
    let (state, _) = cmd.answer(state, "GoodPass1");
    assert_eq!(SignupStep::Email, state.step);
    assert_eq!("GoodPass1", state.password);
}

#[test]
fn password_numeric_letter_counts_as_numeric() {
    // U+216B is both alphabetic and numeric.
    validate_password_complexity("abcdefg\u{216B}").unwrap();
    assert!(validate_password_complexity("abcdefgh").unwrap_err().contains("letters and numbers"));
}
