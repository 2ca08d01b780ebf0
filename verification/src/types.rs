//! Core data types: book formats, book records and the error taxonomy.

use vstd::prelude::*;

verus! {

use vstd::string::StringSliceAdditionalSpecFns;

/// ASCII lower-casing of a single byte; other bytes are unchanged.
pub open spec fn lower_byte(b: u8) -> u8 {
    if 65 <= b && b <= 90 {
        (b + 32) as u8
    } else {
        b
    }
}

/// ASCII lower-casing of a byte sequence.
pub open spec fn lower_bytes(s: Seq<u8>) -> Seq<u8> {
    s.map_values(|b: u8| lower_byte(b))
}

/// The two recognized content-file extensions, lower-cased.
pub open spec fn epub_bytes() -> Seq<u8> {
    seq![101u8, 112u8, 117u8, 98u8]
}

pub open spec fn pdf_bytes() -> Seq<u8> {
    seq![112u8, 100u8, 102u8]
}

/// The key-file extension, lower-cased.
pub open spec fn dat_bytes() -> Seq<u8> {
    seq![100u8, 97u8, 116u8]
}

#[derive(Debug, Clone, PartialEq, Eq, Structural)]
pub enum BookFormat {
    Epub,
    Pdf,
    Unknown,
}

/// The format that a file extension denotes, matched case-insensitively.
pub open spec fn spec_format_from_extension(ext: Seq<u8>) -> BookFormat {
    if lower_bytes(ext) == epub_bytes() {
        BookFormat::Epub
    } else if lower_bytes(ext) == pdf_bytes() {
        BookFormat::Pdf
    } else {
        BookFormat::Unknown
    }
}

/// Compares `bytes`, lower-cased byte by byte, against `lower`.
pub(crate) fn eq_lowered(bytes: &[u8], lower: &[u8]) -> (r: bool)
    ensures
        r == (lower_bytes(bytes@) == lower@),
{
    if bytes.len() != lower.len() {
        assert(lower_bytes(bytes@).len() == bytes@.len());
        return false;
    }
    let n = bytes.len();
    let mut i: usize = 0;
    while i < n
        invariant
            0 <= i <= n,
            n == bytes@.len() == lower@.len(),
            forall|j: int| 0 <= j < i ==> lower_bytes(bytes@)[j] == lower@[j],
        decreases n - i,
    {
        let b = bytes[i];
        let lb = if 65 <= b && b <= 90 {
            b + 32
        } else {
            b
        };
        assert(lb == lower_bytes(bytes@)[i as int]);
        if lb != lower[i] {
            return false;
        }
        i += 1;
    }
    assert(lower_bytes(bytes@) =~= lower@);
    true
}

impl BookFormat {
    /// The format denoted by a file extension, matched case-insensitively.
    pub fn from_extension(ext: &str) -> (r: BookFormat)
        ensures
            r == spec_format_from_extension(ext.spec_bytes()),
    {
        let bytes = ext.as_bytes();
        if eq_lowered(bytes, &[101u8, 112u8, 117u8, 98u8]) {
            BookFormat::Epub
        } else if eq_lowered(bytes, &[112u8, 100u8, 102u8]) {
            BookFormat::Pdf
        } else {
            BookFormat::Unknown
        }
    }

    /// The canonical (lower-case) extension for this format.
    pub fn as_str(&self) -> (r: &'static str)
        ensures
            self is Epub ==> r@ == "epub"@,
            self is Pdf ==> r@ == "pdf"@,
            self is Unknown ==> r@ == "unknown"@,
    {
        match self {
            BookFormat::Epub => "epub",
            BookFormat::Pdf => "pdf",
            BookFormat::Unknown => "unknown",
        }
    }
}

/// The two DRM schemes: `V1` encrypts the whole content file, `V11` wraps a
/// zip archive whose entries are encrypted individually.
#[derive(Debug, Clone, Copy, PartialEq, Eq, Structural)]
pub enum DrmVersion {
    V1,
    V11,
}

/// Failure taxonomy of the decryption engine.
#[derive(Debug, Clone)]
pub enum ProcessingError {
    IoError(String),
    DecryptionError(String),
    InvalidPath(String),
    FileNotFound(String),
    UnsupportedFormat(String),
    KeyExtractionError(String),
    ConfigError(String),
}

impl ProcessingError {
    /// A human-readable description, with a prefix naming the error kind.
    pub fn message(&self) -> (r: String)
        ensures
            match self {
                ProcessingError::IoError(e) => r@ == "IO Error: "@ + e@,
                ProcessingError::DecryptionError(e) => r@ == "Decryption Error: "@ + e@,
                ProcessingError::InvalidPath(e) => r@ == "Invalid Path: "@ + e@,
                ProcessingError::FileNotFound(e) => r@ == "File Not Found: "@ + e@,
                ProcessingError::UnsupportedFormat(e) => r@ == "Unsupported Format: "@ + e@,
                ProcessingError::KeyExtractionError(e) => r@ == "Key Extraction Error: "@ + e@,
                ProcessingError::ConfigError(e) => r@ == "Configuration Error: "@ + e@,
            },
    {
        match self {
            ProcessingError::IoError(e) => String::from_str("IO Error: ").concat(e.as_str()),
            ProcessingError::DecryptionError(e) => String::from_str("Decryption Error: ").concat(
                e.as_str(),
            ),
            ProcessingError::InvalidPath(e) => String::from_str("Invalid Path: ").concat(
                e.as_str(),
            ),
            ProcessingError::FileNotFound(e) => String::from_str("File Not Found: ").concat(
                e.as_str(),
            ),
            ProcessingError::UnsupportedFormat(e) => String::from_str(
                "Unsupported Format: ",
            ).concat(e.as_str()),
            ProcessingError::KeyExtractionError(e) => String::from_str(
                "Key Extraction Error: ",
            ).concat(e.as_str()),
            ProcessingError::ConfigError(e) => String::from_str("Configuration Error: ").concat(
                e.as_str(),
            ),
        }
    }
}

/// Configuration values the engine consumes; parsing them is a caller concern.
#[derive(Debug, Clone)]
pub struct Config {
    pub device_id: String,
    pub user_idx: String,
    pub verbose: bool,
    pub organize_output: bool,
    pub backup_originals: bool,
    pub output_directory: Option<String>,
    pub library_path: Option<String>,
    pub max_retries: u32,
    pub timeout_seconds: u64,
}

impl Default for Config {
    fn default() -> (r: Self)
        ensures
            r.device_id@ == Seq::<char>::empty(),
            r.user_idx@ == Seq::<char>::empty(),
            !r.verbose,
            !r.organize_output,
            r.backup_originals,
            r.output_directory is None,
            r.library_path is None,
            r.max_retries == 3,
            r.timeout_seconds == 30,
    {
        Config {
            device_id: String::new(),
            user_idx: String::new(),
            verbose: false,
            organize_output: false,
            backup_originals: true,
            output_directory: None,
            library_path: None,
            max_retries: 3,
            timeout_seconds: 30,
        }
    }
}

/// Where a discovered library location came from.
#[derive(Debug, Clone, PartialEq, Eq, Structural)]
pub enum LibrarySource {
    Registry,
    CommonPath,
    UserSpecified,
    Environment,
}

/// A candidate library root with its confidence score on a 0–100 scale.
#[derive(Debug, Clone)]
pub struct LibraryLocation {
    pub path: String,
    pub confidence: u32,
    pub source: LibrarySource,
}

/// One book, resolved from its directory.
///
/// `path` is the directory that holds the book's files, `id` its name.
/// `content_filename` is the resolved name of the encrypted content file;
/// it embeds a version marker exactly when `drm` is `V11`.
#[derive(Debug, Clone)]
pub struct BookInfo {
    pub id: String,
    pub format: BookFormat,
    pub path: String,
    pub title: Option<String>,
    pub content_filename: String,
    pub drm: DrmVersion,
}

impl BookInfo {
    /// Path of the companion key file, `{id}.dat`, inside the book directory.
    pub fn get_data_file_path(&self) -> (r: String)
        ensures
            r@ == self.path@ + "/"@ + self.id@ + ".dat"@,
    {
        let mut s = self.path.clone();
        s.append("/");
        s.append(self.id.as_str());
        s.append(".dat");
        s
    }

    /// Path of the resolved content file inside the book directory.
    pub fn get_book_file_path(&self) -> (r: String)
        ensures
            r@ == self.path@ + "/"@ + self.content_filename@,
    {
        let mut s = self.path.clone();
        s.append("/");
        s.append(self.content_filename.as_str());
        s
    }

    /// Name of the decrypted output file: the id plus the canonical extension.
    pub fn get_output_filename(&self) -> (r: String)
        ensures
            self.format is Epub ==> r@ == self.id@ + "."@ + "epub"@,
            self.format is Pdf ==> r@ == self.id@ + "."@ + "pdf"@,
            self.format is Unknown ==> r@ == self.id@ + "."@ + "unknown"@,
    {
        let mut s = self.id.clone();
        s.append(".");
        s.append(self.format.as_str());
        s
    }

    /// The title when one is known, otherwise the id.
    pub fn get_display_name(&self) -> (r: String)
        ensures
            match self.title {
                Some(t) => r@ == t@,
                None => r@ == self.id@,
            },
    {
        match &self.title {
            Some(t) => t.clone(),
            None => self.id.clone(),
        }
    }
}

} // verus!
