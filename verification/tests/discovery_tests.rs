use ridiculous::discovery::{
    calculate_confidence, is_book_directory, DirSnapshot, FileEntry, LibraryFinder,
    LibrarySnapshot, RootChild, RootSnapshot,
};
use ridiculous::resolve::resolve_book;
use ridiculous::types::{BookFormat, DrmVersion, ProcessingError};

fn file(name: &str) -> FileEntry {
    FileEntry {
        name: name.to_string(),
        is_file: true,
    }
}

fn book_dir(name: &str, files: &[&str]) -> DirSnapshot {
    DirSnapshot {
        name: name.to_string(),
        is_dir: true,
        files: files.iter().map(|f| file(f)).collect(),
    }
}

#[test]
fn test_library_finder_creation() {
    let finder = LibraryFinder::new(vec!["/home/user/.local/share/Ridibooks/library".to_string()]);
    assert!(!finder.common_paths.is_empty());
}

#[test]
fn test_book_directory_predicate() {
    assert!(is_book_directory(&vec![
        file("1234.dat"),
        file("1234.epub")
    ]));
    // case-insensitive extension match
    assert!(is_book_directory(&vec![file("A.DAT"), file("A.Pdf")]));
    // a key file alone, or a content file alone, is not enough
    assert!(!is_book_directory(&vec![file("1234.dat")]));
    assert!(!is_book_directory(&vec![file("1234.epub")]));
    // directories do not count as files
    assert!(!is_book_directory(&vec![
        FileEntry {
            name: "1234.dat".to_string(),
            is_file: false
        },
        file("1234.epub"),
    ]));
    // a leading dot is not an extension
    assert!(!is_book_directory(&vec![file(".dat"), file(".epub")]));
}

fn root(has_metadata: bool, children: Vec<RootChild>) -> RootSnapshot {
    RootSnapshot {
        path: "/candidate".to_string(),
        exists: true,
        is_dir: true,
        readable: true,
        has_metadata,
        children,
    }
}

fn user_bucket(name: &str, books: Vec<DirSnapshot>) -> RootChild {
    RootChild {
        name: name.to_string(),
        is_dir: true,
        files: Vec::new(),
        subdirs: books,
    }
}

#[test]
fn test_confidence_scoring_monotonic_steps() {
    // an otherwise-empty root, then marker, then user bucket, then books:
    // the score never decreases and hits the documented values
    let empty = root(false, Vec::new());
    let with_marker = root(true, Vec::new());
    let with_user = root(true, vec![user_bucket("_123", Vec::new())]);
    let with_books = root(
        true,
        vec![user_bucket(
            "_123",
            vec![book_dir("9999", &["9999.dat", "9999.epub"])],
        )],
    );
    let scores = [
        calculate_confidence(&empty),
        calculate_confidence(&with_marker),
        calculate_confidence(&with_user),
        calculate_confidence(&with_books),
    ];
    assert_eq!(scores, [10, 40, 80, 100]);
    assert!(scores.windows(2).all(|w| w[0] <= w[1]));

    let unreadable = RootSnapshot {
        readable: false,
        ..with_books
    };
    assert_eq!(calculate_confidence(&unreadable), 0);
}

#[test]
fn test_confidence_counts_direct_book_dirs() {
    // book directories directly under the root, without a user bucket
    let direct = root(
        false,
        vec![RootChild {
            name: "4321".to_string(),
            is_dir: true,
            files: vec![file("4321.dat"), file("4321.pdf")],
            subdirs: Vec::new(),
        }],
    );
    assert_eq!(calculate_confidence(&direct), 40);
}

#[test]
fn test_locations_sorted_by_confidence_stable() {
    let finder = LibraryFinder::new(Vec::new());
    let low1 = RootSnapshot {
        path: "/low-first".to_string(),
        ..root(false, Vec::new())
    };
    let high = RootSnapshot {
        path: "/high".to_string(),
        ..root(true, vec![user_bucket("_1", Vec::new())])
    };
    let low2 = RootSnapshot {
        path: "/low-second".to_string(),
        ..root(false, Vec::new())
    };
    let missing = RootSnapshot {
        exists: false,
        ..root(true, Vec::new())
    };
    let locations = finder.find_library_locations(&vec![low1, high, low2, missing]);
    let summary: Vec<(String, u32)> = locations
        .iter()
        .map(|l| (l.path.clone(), l.confidence))
        .collect();
    assert_eq!(
        summary,
        vec![
            ("/high".to_string(), 80),
            ("/low-first".to_string(), 10),
            ("/low-second".to_string(), 10),
        ]
    );
}

#[test]
fn test_library_paths_order() {
    let finder = LibraryFinder::new(Vec::new());
    let subdirs = vec!["_42".to_string(), "metadata".to_string(), "_7".to_string()];
    let paths = finder.get_library_paths("/base", "99", &subdirs);
    assert_eq!(
        paths,
        vec![
            "/base/_99".to_string(),
            "/base".to_string(),
            "/base/_42".to_string(),
            "/base/_7".to_string(),
        ]
    );
}

#[test]
fn test_resolve_prefers_version_marked_name() {
    // a plain file with the same stem may be stale plaintext from an earlier
    // run: the version-marked name must win
    let files = vec![file("1234.dat"), file("1234.epub"), file("1234.v11.epub")];
    let book = resolve_book("/lib/_1/1234", "1234", &files).unwrap();
    assert_eq!(book.content_filename, "1234.v11.epub");
    assert_eq!(book.drm, DrmVersion::V11);
    assert_eq!(book.format, BookFormat::Epub);
    assert_eq!(book.get_book_file_path(), "/lib/_1/1234/1234.v11.epub");
}

#[test]
fn test_resolve_falls_back_to_plain_name() {
    let files = vec![file("1234.dat"), file("1234.pdf")];
    let book = resolve_book("/lib/_1/1234", "1234", &files).unwrap();
    assert_eq!(book.content_filename, "1234.pdf");
    assert_eq!(book.drm, DrmVersion::V1);
    assert_eq!(book.format, BookFormat::Pdf);
}

#[test]
fn test_resolve_fails_without_content_file() {
    let files = vec![file("1234.dat"), file("other.epub")];
    match resolve_book("/lib/_1/1234", "1234", &files) {
        Err(ProcessingError::InvalidPath(_)) => {}
        other => panic!("expected InvalidPath, got {:?}", other),
    }
}

#[test]
fn test_find_books_takes_first_library_with_books() {
    let finder = LibraryFinder::new(Vec::new());
    let empty_lib = LibrarySnapshot {
        path: "/first".to_string(),
        exists: true,
        dirs: Vec::new(),
    };
    let missing_lib = LibrarySnapshot {
        path: "/missing".to_string(),
        exists: false,
        dirs: vec![book_dir("1111", &["1111.dat", "1111.epub"])],
    };
    let full_lib = LibrarySnapshot {
        path: "/second".to_string(),
        exists: true,
        dirs: vec![
            book_dir("1111", &["1111.dat", "1111.epub"]),
            book_dir("notes", &["readme.txt"]),
            book_dir("2222", &["2222.dat", "2222.v11.epub"]),
        ],
    };
    let books = finder
        .find_books(&vec![empty_lib, missing_lib, full_lib])
        .unwrap();
    assert_eq!(books.len(), 2);
    assert_eq!(books[0].id, "1111");
    assert_eq!(books[0].path, "/second/1111");
    assert_eq!(books[0].drm, DrmVersion::V1);
    assert_eq!(books[1].id, "2222");
    assert_eq!(books[1].drm, DrmVersion::V11);
}

#[test]
fn test_find_books_reports_not_found() {
    let finder = LibraryFinder::new(Vec::new());
    let empty_lib = LibrarySnapshot {
        path: "/first".to_string(),
        exists: true,
        dirs: vec![book_dir("notes", &["readme.txt"])],
    };
    match finder.find_books(&vec![empty_lib]) {
        Err(ProcessingError::FileNotFound(_)) => {}
        other => panic!("expected FileNotFound, got {:?}", other),
    }
}
