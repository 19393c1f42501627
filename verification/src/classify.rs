//! File types, judged by the extension of a name.

use crate::item::FileType;
use crate::lexical::{folded, last_component, last_component_index, matches_at, occurs_at, tail_index, tail_start};
use vstd::prelude::*;
use vstd::slice::slice_subrange;
use vstd::string::StringSliceAdditionalSpecFns;

verus! {

/// The byte that sets an extension off from the rest of a name.
pub const EXTENSION_MARKER: u8 = 46;

/// The known extensions, in lower case, each with its type.
pub open spec fn extension_types() -> Seq<(&'static str, FileType)> {
    seq![
        ("mp4", FileType::Video),
        ("mov", FileType::Video),
        ("avi", FileType::Video),
        ("mkv", FileType::Video),
        ("wmv", FileType::Video),
        ("flv", FileType::Video),
        ("webm", FileType::Video),
        ("m4v", FileType::Video),
        ("mp3", FileType::Audio),
        ("wav", FileType::Audio),
        ("flac", FileType::Audio),
        ("aac", FileType::Audio),
        ("ogg", FileType::Audio),
        ("m4a", FileType::Audio),
        ("jpg", FileType::Image),
        ("jpeg", FileType::Image),
        ("png", FileType::Image),
        ("gif", FileType::Image),
        ("bmp", FileType::Image),
        ("svg", FileType::Image),
        ("webp", FileType::Image),
        ("heic", FileType::Image),
        ("tiff", FileType::Image),
        ("pdf", FileType::Document),
        ("doc", FileType::Document),
        ("docx", FileType::Document),
        ("xls", FileType::Document),
        ("xlsx", FileType::Document),
        ("ppt", FileType::Document),
        ("pptx", FileType::Document),
        ("txt", FileType::Document),
        ("md", FileType::Document),
        ("rtf", FileType::Document),
        ("csv", FileType::Document),
        ("zip", FileType::Archive),
        ("rar", FileType::Archive),
        ("7z", FileType::Archive),
        ("tar", FileType::Archive),
        ("gz", FileType::Archive),
        ("bz2", FileType::Archive),
        ("xz", FileType::Archive),
        ("dmg", FileType::Archive),
        ("iso", FileType::Archive),
        ("app", FileType::Application),
        ("exe", FileType::Application),
        ("pkg", FileType::Application),
        ("deb", FileType::Application),
        ("rpm", FileType::Application),
        ("msi", FileType::Application),
        ("apk", FileType::Application),
        ("cache", FileType::Cache),
        ("tmp", FileType::Cache),
        ("temp", FileType::Cache),
        ("log", FileType::Cache),
        ("bak", FileType::Cache),
    ]
}

/// The extension of the file name `name`: what follows its last marker, where
/// that marker is not the first byte of the name.
pub open spec fn extension_of(name: Seq<u8>) -> Option<Seq<u8>> {
    let start = tail_start(name, EXTENSION_MARKER);
    if start >= 2 {
        Some(name.subrange(start, name.len() as int))
    } else {
        None
    }
}

/// The type of the first entry of `table`, from index `from` on, whose
/// extension is `extension`; `Other` where there is none.
pub open spec fn type_from(table: Seq<(&'static str, FileType)>, extension: Seq<u8>, from: int)
    -> FileType
    decreases table.len() - from,
{
    if from < 0 || from >= table.len() {
        FileType::Other
    } else if table[from].0.spec_bytes() == extension {
        table[from].1
    } else {
        type_from(table, extension, from + 1)
    }
}

/// The type of a file with extension `extension`, whatever its case.
pub open spec fn type_of_extension(extension: Seq<u8>) -> FileType {
    type_from(extension_types(), folded(extension, true), 0)
}

/// The type of the file at `path`: that of the extension of its last
/// component, and `Other` where it has none.
pub open spec fn file_type_of(path: Seq<u8>) -> FileType {
    match extension_of(last_component(path)) {
        Some(extension) => type_of_extension(extension),
        None => FileType::Other,
    }
}

/// The known extensions.
pub fn extension_table() -> (table: Vec<(&'static str, FileType)>)
    ensures
        table@ == extension_types(),
{
    let mut table: Vec<(&'static str, FileType)> = Vec::new();
    table.push(("mp4", FileType::Video));
    table.push(("mov", FileType::Video));
    table.push(("avi", FileType::Video));
    table.push(("mkv", FileType::Video));
    table.push(("wmv", FileType::Video));
    table.push(("flv", FileType::Video));
    table.push(("webm", FileType::Video));
    table.push(("m4v", FileType::Video));
    table.push(("mp3", FileType::Audio));
    table.push(("wav", FileType::Audio));
    table.push(("flac", FileType::Audio));
    table.push(("aac", FileType::Audio));
    table.push(("ogg", FileType::Audio));
    table.push(("m4a", FileType::Audio));
    table.push(("jpg", FileType::Image));
    table.push(("jpeg", FileType::Image));
    table.push(("png", FileType::Image));
    table.push(("gif", FileType::Image));
    table.push(("bmp", FileType::Image));
    table.push(("svg", FileType::Image));
    table.push(("webp", FileType::Image));
    table.push(("heic", FileType::Image));
    table.push(("tiff", FileType::Image));
    table.push(("pdf", FileType::Document));
    table.push(("doc", FileType::Document));
    table.push(("docx", FileType::Document));
    table.push(("xls", FileType::Document));
    table.push(("xlsx", FileType::Document));
    table.push(("ppt", FileType::Document));
    table.push(("pptx", FileType::Document));
    table.push(("txt", FileType::Document));
    table.push(("md", FileType::Document));
    table.push(("rtf", FileType::Document));
    table.push(("csv", FileType::Document));
    table.push(("zip", FileType::Archive));
    table.push(("rar", FileType::Archive));
    table.push(("7z", FileType::Archive));
    table.push(("tar", FileType::Archive));
    table.push(("gz", FileType::Archive));
    table.push(("bz2", FileType::Archive));
    table.push(("xz", FileType::Archive));
    table.push(("dmg", FileType::Archive));
    table.push(("iso", FileType::Archive));
    table.push(("app", FileType::Application));
    table.push(("exe", FileType::Application));
    table.push(("pkg", FileType::Application));
    table.push(("deb", FileType::Application));
    table.push(("rpm", FileType::Application));
    table.push(("msi", FileType::Application));
    table.push(("apk", FileType::Application));
    table.push(("cache", FileType::Cache));
    table.push(("tmp", FileType::Cache));
    table.push(("temp", FileType::Cache));
    table.push(("log", FileType::Cache));
    table.push(("bak", FileType::Cache));
    assert(table@ =~= extension_types());
    table
}

/// The type of a file with the extension `extension`, whatever its case;
/// `Other` for an extension that is not known.
pub fn classify_extension(extension: &[u8]) -> (file_type: FileType)
    ensures
        file_type == type_of_extension(extension@),
{
    let table = extension_table();
    let ghost wanted = folded(extension@, true);
    let mut i: usize = 0;
    while i < table.len()
        invariant
            i <= table.len(),
            table@ == extension_types(),
            wanted == folded(extension@, true),
            type_from(table@, wanted, 0) == type_from(table@, wanted, i as int),
        decreases table.len() - i,
    {
        let known = table[i].0.as_bytes();
        if known.len() == extension.len() && matches_at(extension, known, 0, true) {
            assert(known@ =~= wanted);
            return table[i].1;
        }
        proof {
            if known@ == wanted {
                assert(occurs_at(wanted, known@, 0));
            }
        }
        i += 1;
    }
    FileType::Other
}

/// The type of the file at `path`, or named `path`.
pub fn classify(path: &str) -> (file_type: FileType)
    ensures
        file_type == file_type_of(path.spec_bytes()),
{
    let bytes = path.as_bytes();
    let name = slice_subrange(bytes, last_component_index(bytes), bytes.len());
    let start = tail_index(name, EXTENSION_MARKER);
    if start >= 2 {
        classify_extension(slice_subrange(name, start, name.len()))
    } else {
        FileType::Other
    }
}

} // verus!
