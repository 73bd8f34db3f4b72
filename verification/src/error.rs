//! The library's error taxonomy.
use vstd::prelude::*;
use vstd::string::StringExecFns;

verus! {

/// What can go wrong across the picker's operations.  Failures of outside
/// facilities are carried as their rendered text.
#[derive(Debug)]
pub enum BackgroundPickerError {
    ThreadPoolCreation(String),
    CacheDirectoryCreation(String),
    ThumbnailGeneration { path: String, message: String },
    SaveSelectedImage(String),
    CommandExecution(String),
    InvalidImageFile(String),
    LockAcquisition,
}

impl BackgroundPickerError {
    /// A human-readable rendering of the error.
    pub fn message(&self) -> (r: String)
        ensures
            self is ThreadPoolCreation ==> r@ == "Failed to create thread pool: "@
                + self->ThreadPoolCreation_0@,
            self is CacheDirectoryCreation ==> r@
                == "Failed to create thumbnail cache directory: "@
                + self->CacheDirectoryCreation_0@,
            self is ThumbnailGeneration ==> r@ == "Failed to generate thumbnail for "@
                + self->ThumbnailGeneration_path@ + ": "@ + self->ThumbnailGeneration_message@,
            self is SaveSelectedImage ==> r@ == "Failed to save selected image path: "@
                + self->SaveSelectedImage_0@,
            self is CommandExecution ==> r@ == "Command execution failed: "@
                + self->CommandExecution_0@,
            self is InvalidImageFile ==> r@ == "Invalid image file: "@
                + self->InvalidImageFile_0@,
            self is LockAcquisition ==> r@ == "Lock acquisition failed"@,
    {
        match self {
            BackgroundPickerError::ThreadPoolCreation(s) => {
                let mut m = String::from_str("Failed to create thread pool: ");
                m.append(s.as_str());
                m
            },
            BackgroundPickerError::CacheDirectoryCreation(s) => {
                let mut m = String::from_str("Failed to create thumbnail cache directory: ");
                m.append(s.as_str());
                m
            },
            BackgroundPickerError::ThumbnailGeneration { path, message } => {
                let mut m = String::from_str("Failed to generate thumbnail for ");
                m.append(path.as_str());
                m.append(": ");
                m.append(message.as_str());
                m
            },
            BackgroundPickerError::SaveSelectedImage(s) => {
                let mut m = String::from_str("Failed to save selected image path: ");
                m.append(s.as_str());
                m
            },
            BackgroundPickerError::CommandExecution(s) => {
                let mut m = String::from_str("Command execution failed: ");
                m.append(s.as_str());
                m
            },
            BackgroundPickerError::InvalidImageFile(s) => {
                let mut m = String::from_str("Invalid image file: ");
                m.append(s.as_str());
                m
            },
            BackgroundPickerError::LockAcquisition => String::from_str("Lock acquisition failed"),
        }
    }
}

} // verus!
