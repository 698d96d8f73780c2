//! An edit session, as the decisions that it takes.
//!
//! The session shows the user a file with its protected spans readable and
//! still marked, lets an editor change it, and stores what the user left
//! encrypted again. Reading and writing files and running the editor are
//! the caller's part: the caller reports what happened as an event, and
//! is told what to do next.

use crate::command::{runs, rewind_command};
use crate::encryption::EncryptionSystem;
use crate::error::{AppError, ErrorView};
use crate::parse::{parse, parse_error_view, parse_source};
use crate::segment::{clone_segments, document, SegmentView};
use crate::serialize::{combine, combined};
use crate::laws::lemma_combine_parsed;
use crate::transform::{
    encrypt, has_cipher, lemma_rewind_without_cipher, rewind, transforms, Transform,
};
use vstd::prelude::*;
use vstd::string::*;

verus! {

/// Where a session stands.
#[derive(Clone, Debug, PartialEq)]
pub enum EditState {
    /// Nothing was read yet.
    Start,
    /// The editor runs on the text that the session presented, which is
    /// kept here.
    Presented(String),
    /// The editor has ended well, and what it left is being read.
    Edited(String),
    /// The session has ended, and the user changed nothing.
    Unchanged,
    /// The session has ended, and the changed text was encrypted again.
    ReEncrypted,
}

/// What the caller reports.
#[derive(Clone, Debug, PartialEq)]
pub enum EditEvent {
    /// The text of the file that is to be edited.
    Loaded(String),
    /// The editor has ended: well, or not.
    EditorExited(bool),
    /// The text that the editor left.
    ReadBack(String),
}

/// What the caller is to do next.
#[derive(Clone, Debug, PartialEq)]
pub enum EditAction {
    /// Write the text to the temporary file and run the editor on it.
    Present(String),
    /// Read the temporary file.
    Read,
    /// Leave the destination as it is.
    Discard,
    /// Write the text to the temporary file and move it to the
    /// destination.
    Commit(String),
}

/// The error of a session whose editor ended badly.
pub open spec fn editor_failed() -> ErrorView {
    ErrorView { context: "edit command"@, detail: "editor command failed"@ }
}

/// The error of a session to which the caller reports what cannot happen
/// where it stands.
pub open spec fn out_of_order() -> ErrorView {
    ErrorView { context: "edit command"@, detail: "event out of order"@ }
}

/// Whether a session ends with `r` when encrypting the edited document
/// gave `encrypted`: the stored form of what came out is committed, and an
/// error ends the session.
pub open spec fn commits(
    encrypted: Result<Seq<SegmentView>, ErrorView>,
    r: Result<(EditState, EditAction), AppError>,
) -> bool {
    match encrypted {
        Ok(stored) => r matches Ok((EditState::ReEncrypted, EditAction::Commit(text))) && text@
            == combined(stored),
        Err(e) => r is Err && r->Err_0@ == e,
    }
}

/// Whether a session can end with `r` when rewinding the edited document
/// `d` gave `rewound`, where `presented` is the text that the editor was
/// given.
///
/// Where the rewound document is written as the text that was presented,
/// nothing has changed and nothing is written. Otherwise the edited
/// document is encrypted and committed.
pub open spec fn decides<S: EncryptionSystem + ?Sized>(
    system: &S,
    presented: Seq<char>,
    d: Seq<SegmentView>,
    rewound: Result<Seq<SegmentView>, ErrorView>,
    r: Result<(EditState, EditAction), AppError>,
) -> bool {
    match rewound {
        Ok(shown) => if combined(shown) == presented {
            r matches Ok((EditState::Unchanged, EditAction::Discard))
        } else {
            exists|encrypted: Result<Seq<SegmentView>, ErrorView>|
                #[trigger] transforms(system, Transform::Encrypt, d, encrypted) && commits(
                    encrypted,
                    r,
                )
        },
        Err(e) => r is Err && r->Err_0@ == e,
    }
}

/// Whether a session can end the reading of the edited text `edited` with
/// `r`, where `presented` is the text that the editor was given: the
/// edited text is parsed and rewound, and what that gives decides.
pub open spec fn concludes<S: EncryptionSystem + ?Sized>(
    system: &S,
    presented: Seq<char>,
    edited: Seq<char>,
    r: Result<(EditState, EditAction), AppError>,
) -> bool {
    match parse(edited) {
        Ok(d) => exists|rewound: Result<Seq<SegmentView>, ErrorView>|
            #[trigger] transforms(system, Transform::Rewind, d, rewound) && decides(
                system,
                presented,
                d,
                rewound,
                r,
            ),
        Err(e) => r is Err && r->Err_0@ == parse_error_view(e),
    }
}

/// Whether a session in `state` can answer the event with `r`.
pub open spec fn steps<S: EncryptionSystem + ?Sized>(
    system: &S,
    state: EditState,
    event: EditEvent,
    r: Result<(EditState, EditAction), AppError>,
) -> bool {
    match (state, event) {
        (EditState::Start, EditEvent::Loaded(source)) => match r {
            Ok((EditState::Presented(kept), EditAction::Present(text))) => kept@ == text@ && runs(
                system,
                Transform::Rewind,
                source@,
                Ok(text@),
            ),
            Ok(_) => false,
            Err(e) => runs(system, Transform::Rewind, source@, Err(e@)),
        },
        (EditState::Presented(presented), EditEvent::EditorExited(success)) => if success {
            r matches Ok((EditState::Edited(kept), EditAction::Read)) && kept@ == presented@
        } else {
            r is Err && r->Err_0@ == editor_failed()
        },
        (EditState::Edited(presented), EditEvent::ReadBack(edited)) => concludes(
            system,
            presented@,
            edited@,
            r,
        ),
        _ => r is Err && r->Err_0@ == out_of_order(),
    }
}

/// Takes a session one step further: from the state and what the caller
/// reports to the next state and what the caller is to do.
///
/// An error ends the session: nothing is written, and the temporary file
/// is to be removed. An event that cannot happen in the state is an error
/// too.
pub fn edit_step<S: EncryptionSystem + ?Sized>(
    state: EditState,
    event: EditEvent,
    system: &S,
) -> (r: Result<(EditState, EditAction), AppError>)
    ensures
        steps(system, state, event, r),
{
    match (state, event) {
        (EditState::Start, EditEvent::Loaded(source)) => {
            match rewind_command(source, system) {
                Ok(text) => Ok((EditState::Presented(text.clone()), EditAction::Present(text))),
                Err(e) => Err(e),
            }
        },
        (EditState::Presented(presented), EditEvent::EditorExited(success)) => {
            if success {
                Ok((EditState::Edited(presented), EditAction::Read))
            } else {
                Err(AppError::from_str("edit command", "editor command failed"))
            }
        },
        (EditState::Edited(presented), EditEvent::ReadBack(edited)) => {
            let segments = match parse_source(edited) {
                Ok(segments) => segments,
                Err(e) => {
                    return Err(e);
                },
            };
            let ghost d = document(segments);
            let shown = match rewind(clone_segments(&segments), system) {
                Ok(shown) => shown,
                Err(e) => {
                    assert(transforms(system, Transform::Rewind, d, Err(e@)));
                    return Err(e);
                },
            };
            assert(transforms(system, Transform::Rewind, d, Ok(document(shown))));
            let text = match combine(shown) {
                Ok(text) => text,
                Err(e) => {
                    return Err(e);
                },
            };
            if text == presented {
                return Ok((EditState::Unchanged, EditAction::Discard));
            }
            let stored = match encrypt(segments, system) {
                Ok(stored) => stored,
                Err(e) => {
                    assert(transforms(system, Transform::Encrypt, d, Err(e@)));
                    return Err(e);
                },
            };
            assert(transforms(system, Transform::Encrypt, d, Ok(document(stored))));
            match combine(stored) {
                Ok(text) => Ok((EditState::ReEncrypted, EditAction::Commit(text))),
                Err(e) => Err(e),
            }
        },
        _ => Err(AppError::from_str("edit command", "event out of order")),
    }
}

/// A text without ciphertext that the editor leaves as it was presented
/// is not written anywhere: the session ends unchanged.
pub proof fn lemma_unaltered_edit_is_discarded<S: EncryptionSystem + ?Sized>(
    system: &S,
    presented: Seq<char>,
    edited: Seq<char>,
    r: Result<(EditState, EditAction), AppError>,
)
    requires
        concludes(system, presented, edited, r),
        edited == presented,
        parse(edited) is Ok,
        !has_cipher(parse(edited)->Ok_0),
    ensures
        r matches Ok((EditState::Unchanged, EditAction::Discard)),
{
    let d = parse(edited)->Ok_0;
    lemma_combine_parsed(edited);
    let rewound = choose|rewound: Result<Seq<SegmentView>, ErrorView>|
        #[trigger] transforms(system, Transform::Rewind, d, rewound) && decides(
            system,
            presented,
            d,
            rewound,
            r,
        );
    lemma_rewind_without_cipher(system, d, rewound);
}

} // verus!
