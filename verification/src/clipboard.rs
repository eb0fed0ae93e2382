//! Best-effort access to the OS clipboard. A failure here must never affect
//! the persisted data: every operation reports its outcome and promises
//! nothing else, since whether a clipboard exists depends on the
//! environment.

use copypasta::ClipboardContext;
use copypasta::ClipboardProvider;
use vstd::prelude::*;

verus! {

/// Why a clipboard operation failed, with the collaborator's message.
#[derive(Debug)]
pub enum ClipboardError {
    CopyFailed(String),
    PasteFailed(String),
}

/// The clipboard collaborator.
pub struct Clipboard;

impl Clipboard {
    /// Relies on copypasta's `ClipboardContext::set_contents`: hands `text`
    /// to the OS clipboard; best-effort, nothing is assumed of the outcome.
    #[verifier::external_body]
    pub fn copy(text: &str) -> Result<(), ClipboardError> {
        let mut ctx: ClipboardContext = ClipboardContext::new().map_err(
            |e| ClipboardError::CopyFailed(format!("Failed to create clipboard context: {}", e)),
        )?;
        ctx.set_contents(text.to_string()).map_err(
            |e| ClipboardError::CopyFailed(e.to_string()),
        )
    }

    /// Copy `text` to the clipboard; the caller prints any confirmation.
    pub fn copy_with_message(text: &str) -> Result<(), ClipboardError> {
        Self::copy(text)
    }

    /// Relies on copypasta's `ClipboardContext::get_contents`: reads the OS
    /// clipboard; best-effort, nothing is assumed of the outcome.
    #[verifier::external_body]
    pub fn paste() -> Result<String, ClipboardError> {
        let mut ctx: ClipboardContext = ClipboardContext::new().map_err(
            |e| ClipboardError::PasteFailed(format!("Failed to create clipboard context: {}", e)),
        )?;
        ctx.get_contents().map_err(|e| ClipboardError::PasteFailed(e.to_string()))
    }

    /// Whether the clipboard currently holds readable text.
    pub fn has_content() -> bool {
        match Self::paste() {
            Ok(_) => true,
            Err(_) => false,
        }
    }

    /// Overwrite the clipboard with the empty string.
    pub fn clear() -> Result<(), ClipboardError> {
        Self::copy("")
    }
}

} // verus!
