//! Diagnostics of failed validations.

use forge_scheduler::validation::{diagnostic_lines, first_diagnostic_location, looks_like_location, nonempty_lines, one_line, validation_retry_message};
use forge_scheduler::validation_plan::ValidationCommandFailure;

#[test]
fn retry_message_summarizes_long_validation_output() {
    let stderr = (1..=20)
        .map(|line| format!("main.py:{line}:1: syntax diagnostic {line}"))
        .collect::<Vec<_>>()
        .join("\n");
    let failure = ValidationCommandFailure {
        command: "uv run ruff check main.py".to_string(),
        exit_code: Some(1),
        stdout: "stdout line that should not appear after stderr fills the budget".to_string(),
        stderr,
    };

    let message = validation_retry_message("ruff failed", &Some(failure));

    assert!(message.contains("command: uv run ruff check main.py"));
    assert!(message.contains("exit code: 1"));
    assert!(message.contains("first location: main.py:1:1"));
    assert!(
        message
            .contains("instruction: fix the existing file using file tools before accepting")
    );
    assert!(message.contains("main.py:5:1: syntax diagnostic 5"));
    assert!(!message.contains("main.py:6:1: syntax diagnostic 6"));
    assert!(!message.contains("stdout line that should not appear"));
}

#[test]
fn retry_message_includes_first_file_line_location() {
    let failure = ValidationCommandFailure {
        command: "python -m py_compile main.py".to_string(),
        exit_code: Some(1),
        stdout: String::new(),
        stderr: "  File \"main.py\", line 1\n    def broken(:\nSyntaxError: invalid syntax"
            .to_string(),
    };

    let message = validation_retry_message("compile failed", &Some(failure));

    assert!(message.contains("first location: File \"main.py\", line 1"));
    assert!(message.contains("SyntaxError: invalid syntax"));
}

fn failure(exit_code: Option<i32>, stdout: &str, stderr: &str) -> ValidationCommandFailure {
    ValidationCommandFailure {
        command: "check".to_string(),
        exit_code,
        stdout: stdout.to_string(),
        stderr: stderr.to_string(),
    }
}

#[test]
fn message_without_a_command_gives_the_first_line_of_the_summary() {
    assert_eq!(
        validation_retry_message("  first\nsecond\n", &None),
        "validation failed\nsummary: first\ninstruction: fix the existing file using file tools before accepting"
    );
    assert_eq!(one_line(" \n "), "(empty)");
    assert_eq!(one_line("a \r\nb"), "a");
}

#[test]
fn message_with_a_command_is_exact() {
    assert_eq!(
        validation_retry_message("x", &Some(failure(Some(-9), "out\n", "\n  \n"))),
        "validation failed\ncommand: check\nexit code: -9\nfirst location: (not detected)\ndiagnostics:\nout\ninstruction: fix the existing file using file tools before accepting"
    );
    assert_eq!(
        validation_retry_message("x", &Some(failure(None, "", ""))),
        "validation failed\ncommand: check\nexit code: none\nfirst location: (not detected)\ndiagnostics:\n(no diagnostic output)\ninstruction: fix the existing file using file tools before accepting"
    );
}

#[test]
fn errors_are_preferred_to_output_and_limited() {
    let text = "1\n\n2  \n3\n4\n5\n6";
    assert_eq!(nonempty_lines(text), vec!["1", "2", "3", "4", "5", "6"]);
    assert_eq!(diagnostic_lines(&failure(None, "out", text)), "1\n2\n3\n4\n5");
    assert_eq!(diagnostic_lines(&failure(None, "out", " \n")), "out");
}

#[test]
fn locations_are_recognised() {
    for (line, expected) in [
        ("main.py:1:2: oops", true),
        ("main.py:1: oops", true),
        ("main.py: oops", false),
        ("12:34", false),
        ("a:12:34", true),
        (":12:34", true),
        (":12", false),
        ("", false),
        ("   ", false),
        ("main.py:x:1", true),
        ("main.py:1:x", false),
    ] {
        assert_eq!(looks_like_location(line), expected, "{line:?}");
    }
}

#[test]
fn first_location_is_found() {
    assert_eq!(
        first_diagnostic_location("error: bad\n  --> src/lib.rs:3:5\nmain.py:1:1: x"),
        Some("src/lib.rs:3:5".to_string())
    );
    assert_eq!(
        first_diagnostic_location("main.py:7:: trailing"),
        Some("main.py:7".to_string())
    );
    assert_eq!(
        first_diagnostic_location("  File \"a.py\", line 1\n"),
        Some("File \"a.py\", line 1".to_string())
    );
    assert_eq!(first_diagnostic_location("nothing here"), None);
}
