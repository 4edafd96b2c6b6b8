use krill::validation::{validate_shell_command, ValidationError};

#[test]
fn test_valid_command() {
    assert!(validate_shell_command("echo hello").is_ok());
    assert!(validate_shell_command("python script.py --arg value").is_ok());
    assert!(validate_shell_command("ls -la /tmp").is_ok());
}

#[test]
fn test_empty_command() {
    assert!(matches!(
        validate_shell_command(""),
        Err(ValidationError::EmptyCommand)
    ));
    assert!(matches!(
        validate_shell_command("   "),
        Err(ValidationError::EmptyCommand)
    ));
}

#[test]
fn test_dangerous_patterns() {
    // Test pipe
    assert!(matches!(
        validate_shell_command("ls | grep foo"),
        Err(ValidationError::DangerousPattern(_))
    ));

    // Test semicolon
    assert!(matches!(
        validate_shell_command("echo hello; echo world"),
        Err(ValidationError::DangerousPattern(_))
    ));

    // Test command substitution
    assert!(matches!(
        validate_shell_command("echo $(date)"),
        Err(ValidationError::DangerousPattern(_))
    ));

    // Test redirection
    assert!(matches!(
        validate_shell_command("echo hello > file.txt"),
        Err(ValidationError::DangerousPattern(_))
    ));

    // Test background execution
    assert!(matches!(
        validate_shell_command("sleep 10 &"),
        Err(ValidationError::DangerousPattern(_))
    ));
}

#[test]
fn test_unbalanced_quotes() {
    assert!(matches!(
        validate_shell_command("echo 'hello"),
        Err(ValidationError::InvalidMetacharacter(_))
    ));
    assert!(matches!(
        validate_shell_command(r#"echo "world"#),
        Err(ValidationError::InvalidMetacharacter(_))
    ));
}

#[test]
fn test_balanced_quotes() {
    assert!(validate_shell_command("echo 'hello world'").is_ok());
    assert!(validate_shell_command(r#"echo "hello world""#).is_ok());
}

#[test]
fn test_command_too_long() {
    let long_cmd = "a".repeat(5000);
    assert!(matches!(
        validate_shell_command(&long_cmd),
        Err(ValidationError::CommandTooLong)
    ));
}

#[test]
fn backtick_substitution_rejected() {
    let result = validate_shell_command("echo `whoami`");
    assert!(result.is_err());
    let msg = result.unwrap_err().message();
    assert!(
        msg.contains("backtick") || msg.contains("Dangerous"),
        "unexpected error: {msg}"
    );
}

#[test]
fn or_chaining_rejected() {
    let result = validate_shell_command("true || echo fallback");
    assert!(result.is_err());
    // The forbidden patterns are checked in order with "|" before "||", so
    // the error message references "pipes" rather than "OR chaining".
    let msg = result.unwrap_err().message();
    assert!(
        msg.contains("pipe") || msg.contains("OR chaining") || msg.contains("Dangerous"),
        "unexpected error: {msg}"
    );
}

#[test]
fn and_chaining_rejected() {
    let result = validate_shell_command("cmd1 && cmd2");
    assert!(result.is_err());
    let msg = result.unwrap_err().message();
    assert!(
        msg.contains("AND chaining") || msg.contains("Dangerous"),
        "unexpected error: {msg}"
    );
}

#[test]
fn command_at_exactly_max_length() {
    // the length cap is 4096 characters
    let cmd = "a".repeat(4096);
    // Should be accepted (not too long)
    assert!(
        validate_shell_command(&cmd).is_ok(),
        "exactly 4096 chars should be accepted"
    );

    // One more char should be rejected
    let too_long = "a".repeat(4097);
    assert!(validate_shell_command(&too_long).is_err());
}

#[test]
fn flag_that_looks_like_redirect_but_is_not() {
    // "--output" does NOT contain the literal ">" character, so the
    // substring-based validator correctly allows it.
    let result = validate_shell_command("python train.py --output results.csv");
    assert!(
        result.is_ok(),
        "flag '--output' should be allowed: it contains no literal '>'"
    );

    // In contrast, an actual redirect in the command is still caught.
    let result = validate_shell_command("python train.py --output > results.csv");
    assert!(result.is_err());
}

#[test]
fn input_redirection_rejected_with_exact_message() {
    let result = validate_shell_command("wc -l < data.txt");
    match result {
        Err(ValidationError::DangerousPattern(inner)) => {
            assert_eq!(
                inner,
                "Contains input redirection ('<'). Use a pixi task instead."
            );
        }
        other => panic!("expected a dangerous-pattern error, got {:?}", other),
    }
}
