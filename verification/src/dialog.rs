//! Headless stand-ins for the GUI dialog surface.
//!
//! The daemon runs without a display, so every dialog is a no-op: file
//! pickers answer "nothing chosen" and confirmations answer yes, which is
//! what lets inbound proposals through unattended. The builder calls accept
//! and ignore their arguments.

use vstd::prelude::*;

verus! {

/// Error type of the dialog surface; headless dialogs never fail, so no
/// value of it is ever produced.
#[derive(Clone, Copy, Debug, PartialEq, Eq, Structural)]
pub struct DialogError;

/// A save-file dialog that never picks a location.
pub struct SaveSingleFile;

impl SaveSingleFile {
    /// A fresh dialog.
    pub fn new() -> (r: SaveSingleFile)
        ensures
            r == (SaveSingleFile {}),
    {
        SaveSingleFile {}
    }

    /// Accepts and ignores a starting directory.
    pub fn set_location(self, _location: &str) -> (r: SaveSingleFile)
        ensures
            r == self,
    {
        self
    }

    /// Accepts and ignores a proposed file name.
    pub fn set_filename(self, _filename: &str) -> (r: SaveSingleFile)
        ensures
            r == self,
    {
        self
    }

    /// Headless: no path is ever chosen.
    pub fn show(&self) -> (r: Result<Option<String>, DialogError>)
        ensures
            r == Ok::<Option<String>, DialogError>(None),
    {
        Ok(None)
    }
}

/// An open-file dialog that never picks a file.
pub struct FileDialog;

impl FileDialog {
    /// A fresh dialog.
    pub fn new() -> (r: FileDialog)
        ensures
            r == (FileDialog {}),
    {
        FileDialog {}
    }

    /// Accepts and ignores a name filter.
    pub fn add_filter(self, _description: &str, _extensions: &[&str]) -> (r: FileDialog)
        ensures
            r == self,
    {
        self
    }

    /// Headless: no file is ever chosen.
    pub fn show_open_single_file(&self) -> (r: Result<Option<String>, DialogError>)
        ensures
            r == Ok::<Option<String>, DialogError>(None),
    {
        Ok(None)
    }
}

/// Severity of a message dialog.
pub enum MessageType {
    Info,
    Warning,
    Error,
}

/// A confirmation dialog that always consents.
pub struct MessageDialog;

impl MessageDialog {
    /// A fresh dialog.
    pub fn new() -> (r: MessageDialog)
        ensures
            r == (MessageDialog {}),
    {
        MessageDialog {}
    }

    /// Accepts and ignores a title.
    pub fn set_title(self, _title: &str) -> (r: MessageDialog)
        ensures
            r == self,
    {
        self
    }

    /// Accepts and ignores a message text.
    pub fn set_text(self, _text: &str) -> (r: MessageDialog)
        ensures
            r == self,
    {
        self
    }

    /// Accepts and ignores a severity.
    pub fn set_type(self, _kind: MessageType) -> (r: MessageDialog)
        ensures
            r == self,
    {
        self
    }

    /// Headless: every confirmation is granted, so inbound proposals are
    /// auto-accepted.
    pub fn show_confirm(&self) -> (r: Result<bool, DialogError>)
        ensures
            r == Ok::<bool, DialogError>(true),
    {
        Ok(true)
    }
}

} // verus!
