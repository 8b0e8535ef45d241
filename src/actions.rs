use vstd::prelude::*;

verus! {

/// What an action asks the file browser to do after it ran.
#[derive(Debug, Default)]
pub struct ActionState {
    pub relead: bool,
    pub add_entry: Option<(String, bool)>,
    pub extract_zip_archive: Option<ExtractZipArchive>,
    pub zip_dir: Option<ZipDir>,
    pub renaming: Option<Renaming>,
}

#[derive(Debug)]
pub struct ExtractZipArchive {
    pub source: String,
    pub target: String,
    pub strip_toplevel: bool,
}

/// How the entries of a new archive are compressed.
#[derive(Clone, Copy, Debug, PartialEq, Eq, Structural)]
pub enum CompressionMethod {
    Stored,
    Deflated,
}

#[derive(Debug)]
pub struct ZipDir {
    pub source: String,
    pub target: String,
    pub method: CompressionMethod,
}

#[derive(Debug)]
pub struct Renaming {
    pub source_path: String,
    pub new_name: String,
    pub duplicate: bool,
}

} // verus!
