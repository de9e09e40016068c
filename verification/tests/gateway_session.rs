use ratrix::File;
use ratrix::RatrixError;
use ratrix::SessionAction;
use ratrix::cleanup_outcome;
use ratrix::decrypt_command;
use ratrix::decrypt_outcome;
use ratrix::plan_session;
use ratrix::read_outcome;

fn count_deletes(acts: &[SessionAction]) -> usize {
    acts.iter().filter(|a| matches!(a, SessionAction::DeleteTempFile)).count()
}

fn good_text() -> String {
    let line = vec!["1,2,3"; 8].join(" ");
    vec![line.as_str(); 8].join("\n")
}

#[test]
fn builds_the_decryption_invocation() {
    let args = decrypt_command("file_dec", "secret.gpg");
    assert_eq!(args, vec!["gpg", "--output", "file_dec", "--decrypt", "secret.gpg"]);
}

#[test]
fn subprocess_failure_is_decryption_failed() {
    assert_eq!(decrypt_outcome(false, false), Err(RatrixError::DecryptionFailed));
    assert_eq!(decrypt_outcome(true, false), Err(RatrixError::DecryptionFailed));
    assert_eq!(decrypt_outcome(false, true), Err(RatrixError::DecryptionFailed));
    assert_eq!(decrypt_outcome(true, true), Ok(()));
}

#[test]
fn missing_plaintext_is_read_failed() {
    let f = read_outcome("file_dec", Some("text".to_string())).unwrap();
    assert_eq!(f.get_name(), "file_dec");
    assert_eq!(f.get_contents(), "text");
    let r = read_outcome("file_dec", None);
    assert!(matches!(r, Err(RatrixError::ReadFailed)));
}

#[test]
fn failed_deletion_is_cleanup_failed() {
    assert_eq!(cleanup_outcome(true), Ok(()));
    assert_eq!(cleanup_outcome(false), Err(RatrixError::CleanupFailed));
}

#[test]
fn no_cleanup_without_a_successful_acquire() {
    let acts = plan_session(Err(RatrixError::DecryptionFailed), "A11");
    assert_eq!(acts.len(), 1);
    assert!(matches!(acts[0], SessionAction::ReportError(RatrixError::DecryptionFailed)));
    assert_eq!(count_deletes(&acts), 0);
}

#[test]
fn cleanup_happens_once_when_parsing_fails() {
    let f = File::new("file_dec".to_string(), "not a grid".to_string());
    let acts = plan_session(Ok(f), "A11");
    assert_eq!(acts.len(), 2);
    assert!(matches!(acts[0], SessionAction::ReportError(RatrixError::MalformedGrid)));
    assert!(matches!(acts[1], SessionAction::DeleteTempFile));
    assert_eq!(count_deletes(&acts), 1);
}

#[test]
fn cleanup_happens_once_when_lookup_fails() {
    let f = File::new("file_dec".to_string(), good_text());
    let acts = plan_session(Ok(f), "A11,Z99");
    assert_eq!(acts.len(), 2);
    assert!(matches!(acts[0], SessionAction::ReportError(RatrixError::InvalidCoordinate)));
    assert!(matches!(acts[1], SessionAction::DeleteTempFile));
    assert_eq!(count_deletes(&acts), 1);
}

#[test]
fn cleanup_comes_after_the_output_on_success() {
    let f = File::new("file_dec".to_string(), good_text());
    let acts = plan_session(Ok(f), "A11,B52");
    assert_eq!(acts.len(), 2);
    match &acts[0] {
        SessionAction::EmitOutput(lines) => {
            assert_eq!(lines, &vec!["A11: 1".to_string(), "B52: 2".to_string()]);
        },
        _ => panic!("expected the output action first"),
    }
    assert!(matches!(acts[1], SessionAction::DeleteTempFile));
    assert_eq!(count_deletes(&acts), 1);
}

#[test]
fn every_failure_has_a_fixed_message() {
    assert_eq!(RatrixError::InvalidPath.message(), "Provided path is invalid");
    assert_eq!(RatrixError::DecryptionFailed.message(), "Decryption tool failed");
    assert_eq!(RatrixError::ReadFailed.message(), "Unable to read decrypted file");
    assert_eq!(RatrixError::MalformedGrid.message(), "Decrypted contents do not form an 8x8 grid");
    assert_eq!(RatrixError::InvalidCoordinate.message(), "Invalid position provided");
    assert_eq!(RatrixError::CleanupFailed.message(), "Unable to delete temp file");
}
