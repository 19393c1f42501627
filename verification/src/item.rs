//! The entries that a scan reports.

use vstd::prelude::*;

verus! {

/// Why an entry could not be read.
#[derive(Clone, Copy, Debug, PartialEq, Eq, Structural)]
pub enum ErrorTag {
    /// The entry exists but may not be read.
    PermissionDenied,
    /// The entry was gone when it was read.
    NotFound,
    /// Any other failure of the read.
    Io,
}

/// What kind of content a file holds, judged by its extension.
#[derive(Clone, Copy, Debug, PartialEq, Eq, Structural)]
pub enum FileType {
    Video,
    Audio,
    Image,
    Document,
    Archive,
    Application,
    Cache,
    Other,
}

/// One scanned entry.
#[derive(Debug)]
pub struct DiskItem {
    /// The last component of the path.
    pub name: String,
    /// The absolute path.
    pub path: String,
    /// The space the entry takes on disk, in bytes. For a directory it is
    /// zero until the directory has been aggregated.
    pub size: u64,
    pub is_directory: bool,
    /// Reserved; a scan leaves it at zero.
    pub item_count: usize,
    pub file_type: Option<FileType>,
    /// Set where the entry's metadata could not be read.
    pub error: Option<ErrorTag>,
}

impl Clone for DiskItem {
    fn clone(&self) -> (copy: DiskItem)
        ensures
            copy == *self,
    {
        DiskItem {
            name: self.name.clone(),
            path: self.path.clone(),
            size: self.size,
            is_directory: self.is_directory,
            item_count: self.item_count,
            file_type: self.file_type,
            error: self.error,
        }
    }
}

/// What a scan returns: its entries in ranking order.
#[derive(Debug)]
pub struct ScanResult {
    pub items: Vec<DiskItem>,
}

} // verus!
