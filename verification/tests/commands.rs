use cipher::command::{decrypt_command, encrypt_command, rewind_command};
use cipher::edit::{edit_step, EditAction, EditEvent, EditState};
use cipher::encryption::{new_insecure_encryption, EncryptionSystem, InsecureEncryptionSystem};
use cipher::error::AppError;

struct Counting;

impl EncryptionSystem for Counting {
    fn encrypt(&self, plaintext: &str) -> Result<String, AppError> {
        Ok(format!("{}:{}", plaintext.len(), plaintext))
    }

    fn decrypt(&self, ciphertext: &str) -> Result<String, AppError> {
        match ciphertext.split_once(':') {
            Some((_, plaintext)) => Ok(plaintext.to_string()),
            None => Err(AppError::from_str("counting", "no count")),
        }
    }
}

#[test]
fn encrypted_file_is_read_back_as_it_was_written() {
    let system = new_insecure_encryption().unwrap();
    let stored =
        encrypt_command("Hi <<SECURE>>secret<</SECURE>> bye".to_string(), system.as_ref()).unwrap();
    assert_eq!(stored, "Hi <<CIPHER>>c2VjcmV0<</CIPHER>> bye");
    let shown = decrypt_command(stored, system.as_ref()).unwrap();
    assert_eq!(shown, "Hi secret bye");
}

#[test]
fn decrypt_command_reveals_both_kinds_of_span() {
    let shown = decrypt_command(
        "a<<SECURE>>b<</SECURE>>c<<CIPHER>>ZA==<</CIPHER>>e".to_string(),
        &InsecureEncryptionSystem,
    )
    .unwrap();
    assert_eq!(shown, "abcde");
}

#[test]
fn rewind_command_marks_what_was_encrypted() {
    let shown = rewind_command(
        "a<<SECURE>>b<</SECURE>>c<<CIPHER>>ZA==<</CIPHER>>e".to_string(),
        &InsecureEncryptionSystem,
    )
    .unwrap();
    assert_eq!(shown, "a<<SECURE>>b<</SECURE>>c<<SECURE>>d<</SECURE>>e");
}

#[test]
fn encrypt_command_leaves_ciphertext_alone() {
    let stored = encrypt_command(
        "<<CIPHER>>ZA==<</CIPHER>><<SECURE>>d<</SECURE>>".to_string(),
        &InsecureEncryptionSystem,
    )
    .unwrap();
    assert_eq!(stored, "<<CIPHER>>ZA==<</CIPHER>><<CIPHER>>ZA==<</CIPHER>>");
}

#[test]
fn commands_report_what_is_wrong_with_the_text() {
    let e = encrypt_command("<<SECURE>>x".to_string(), &InsecureEncryptionSystem).unwrap_err();
    assert_eq!(e, AppError::from_str("parsing", "expected /SECURE but found end of string"));
    let e = decrypt_command("x<</CIPHER>>".to_string(), &InsecureEncryptionSystem).unwrap_err();
    assert_eq!(e, AppError::from_str("parsing", "expected start tag but found /CIPHER"));
    let e = rewind_command("<<CIPHER>>?<</CIPHER>>".to_string(), &InsecureEncryptionSystem)
        .unwrap_err();
    assert_eq!(e.context(), "base64 decode error");
    let e = decrypt_command("<<CIPHER>>x<</CIPHER>>".to_string(), &Counting).unwrap_err();
    assert_eq!(e, AppError::from_str("counting", "no count"));
}

#[test]
fn edit_presents_the_rewound_text() {
    let source = "Hi <<CIPHER>>c2VjcmV0<</CIPHER>> bye".to_string();
    let (state, action) =
        edit_step(EditState::Start, EditEvent::Loaded(source), &InsecureEncryptionSystem).unwrap();
    let shown = "Hi <<SECURE>>secret<</SECURE>> bye".to_string();
    assert_eq!(state, EditState::Presented(shown.clone()));
    assert_eq!(action, EditAction::Present(shown));
}

#[test]
fn edit_fails_when_the_file_cannot_be_shown() {
    let e = edit_step(
        EditState::Start,
        EditEvent::Loaded("<<CIPHER>>abc".to_string()),
        &InsecureEncryptionSystem,
    )
    .unwrap_err();
    assert_eq!(e, AppError::from_str("parsing", "expected /CIPHER but found end of string"));
    let e = edit_step(
        EditState::Start,
        EditEvent::Loaded("<<CIPHER>>abc<</CIPHER>>".to_string()),
        &Counting,
    )
    .unwrap_err();
    assert_eq!(e, AppError::from_str("counting", "no count"));
}

#[test]
fn edit_fails_when_the_editor_fails() {
    let e = edit_step(
        EditState::Presented("text".to_string()),
        EditEvent::EditorExited(false),
        &InsecureEncryptionSystem,
    )
    .unwrap_err();
    assert_eq!(e, AppError::from_str("edit command", "editor command failed"));
}

#[test]
fn edit_reads_back_after_the_editor() {
    let (state, action) = edit_step(
        EditState::Presented("text".to_string()),
        EditEvent::EditorExited(true),
        &InsecureEncryptionSystem,
    )
    .unwrap();
    assert_eq!(state, EditState::Edited("text".to_string()));
    assert_eq!(action, EditAction::Read);
}

#[test]
fn edit_writes_nothing_when_nothing_changed() {
    let shown = "Hi <<SECURE>>secret<</SECURE>> bye".to_string();
    let (state, action) = edit_step(
        EditState::Edited(shown.clone()),
        EditEvent::ReadBack(shown),
        &InsecureEncryptionSystem,
    )
    .unwrap();
    assert_eq!(state, EditState::Unchanged);
    assert_eq!(action, EditAction::Discard);
}

#[test]
fn edit_compares_what_the_text_rewinds_to() {
    let shown = "Hi <<SECURE>>secret<</SECURE>> bye".to_string();
    let left = "Hi <<CIPHER>>c2VjcmV0<</CIPHER>> bye".to_string();
    let (state, action) = edit_step(
        EditState::Edited(shown),
        EditEvent::ReadBack(left),
        &InsecureEncryptionSystem,
    )
    .unwrap();
    assert_eq!(state, EditState::Unchanged);
    assert_eq!(action, EditAction::Discard);
}

#[test]
fn edit_encrypts_what_was_changed() {
    let shown = "Hi <<SECURE>>secret<</SECURE>> bye".to_string();
    let left = "Hi <<SECURE>>secrets<</SECURE>> bye <<SECURE>>x<</SECURE>>".to_string();
    let (state, action) = edit_step(
        EditState::Edited(shown),
        EditEvent::ReadBack(left),
        &InsecureEncryptionSystem,
    )
    .unwrap();
    assert_eq!(state, EditState::ReEncrypted);
    assert_eq!(
        action,
        EditAction::Commit("Hi <<CIPHER>>c2VjcmV0cw==<</CIPHER>> bye <<CIPHER>>eA==<</CIPHER>>".to_string())
    );
}

#[test]
fn edit_keeps_ciphertext_that_the_user_left() {
    let shown = "<<SECURE>>a<</SECURE>>".to_string();
    let left = "<<CIPHER>>1:b<</CIPHER>><<SECURE>>a<</SECURE>>".to_string();
    let (state, action) =
        edit_step(EditState::Edited(shown), EditEvent::ReadBack(left), &Counting).unwrap();
    assert_eq!(state, EditState::ReEncrypted);
    assert_eq!(
        action,
        EditAction::Commit("<<CIPHER>>1:b<</CIPHER>><<CIPHER>>1:a<</CIPHER>>".to_string())
    );
}

#[test]
fn edit_fails_when_the_edited_text_is_broken() {
    let e = edit_step(
        EditState::Edited("a".to_string()),
        EditEvent::ReadBack("a<<SECURE>>".to_string()),
        &InsecureEncryptionSystem,
    )
    .unwrap_err();
    assert_eq!(e, AppError::from_str("parsing", "expected /SECURE but found end of string"));
    let e = edit_step(
        EditState::Edited("a".to_string()),
        EditEvent::ReadBack("<<CIPHER>>x<</CIPHER>>".to_string()),
        &Counting,
    )
    .unwrap_err();
    assert_eq!(e, AppError::from_str("counting", "no count"));
}

#[test]
fn edit_refuses_an_event_out_of_order() {
    let cases = [
        (EditState::Start, EditEvent::EditorExited(true)),
        (EditState::Start, EditEvent::ReadBack("a".to_string())),
        (EditState::Presented("a".to_string()), EditEvent::Loaded("a".to_string())),
        (EditState::Edited("a".to_string()), EditEvent::EditorExited(true)),
        (EditState::Unchanged, EditEvent::Loaded("a".to_string())),
        (EditState::ReEncrypted, EditEvent::ReadBack("a".to_string())),
    ];
    for (state, event) in cases {
        let e = edit_step(state, event, &InsecureEncryptionSystem).unwrap_err();
        assert_eq!(e, AppError::from_str("edit command", "event out of order"));
    }
}

#[test]
fn rewind_command_undoes_encrypt_command() {
    let texts = [
        "",
        "plain",
        "Hi <<SECURE>>secret<</SECURE>> bye",
        "<<SECURE>><</SECURE>><<SECURE>>\u{1f512} <\n<</SECURE>>>",
    ];
    for text in texts {
        let stored = encrypt_command(text.to_string(), &InsecureEncryptionSystem).unwrap();
        assert!(!stored.contains("<<SECURE>>"));
        let shown = rewind_command(stored, &InsecureEncryptionSystem).unwrap();
        assert_eq!(shown, text);
    }
}
