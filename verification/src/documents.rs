//! The argument shapes of the host's document and dialog commands. The
//! commands themselves are file-system and window work and live with the
//! host; the shapes live here so that every caller speaks the same language.

use vstd::prelude::*;

verus! {

/// Arguments of a document write.
#[derive(Debug)]
pub struct SaveDocumentArgs {
    pub path: String,
    pub content: String,
}

/// Arguments of a document read.
#[derive(Debug)]
pub struct LoadDocumentArgs {
    pub path: String,
}

/// Arguments of a document rename.
#[derive(Debug)]
pub struct RenameDocumentArgs {
    pub old_path: String,
    pub new_path: String,
}

/// Arguments of a document removal.
#[derive(Debug)]
pub struct DeleteDocumentArgs {
    pub path: String,
}

/// Arguments of a document copy.
#[derive(Debug)]
pub struct DuplicateDocumentArgs {
    pub src: String,
    pub dest: String,
}

/// Arguments of a binary write; the data travels as base64.
#[derive(Debug)]
pub struct SaveBinaryArgs {
    pub path: String,
    pub data_base64: String,
}

/// Arguments of the image-export save dialog.
#[derive(Debug)]
pub struct SaveImageDialogArgs {
    pub suggested_name: Option<String>,
}

} // verus!
