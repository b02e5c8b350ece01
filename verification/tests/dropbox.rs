use std::path::Path;

use dropignore::dropbox::Dropbox;
use tempfile::{Builder, NamedTempFile, TempDir};

const TEST_ITEM_PREFIX: &str = "dropignore-testing";
const TEST_IGNORE_ATTRIBUTE_KEY: &str = "user.com.dropbox.ignored";
const TEST_IGNORE_ATTRIBUTE_VALUE_IGNORED: [u8; 1] = [b'1'];

fn path_str(path: &Path) -> &str {
    path.to_str().unwrap()
}

#[test]
fn is_ignored_directory() {
    for arrange_ignored in [false, true] {
        let temp = arrange_test_directory();
        let path = temp.path();

        if arrange_ignored {
            arrange_ignored_attribute(path);
        }

        let dropbox = Dropbox::new().unwrap();

        assert_eq!(arrange_ignored, dropbox.is_ignored(path_str(path)));
    }
}

#[test]
fn is_ignored_file() {
    for arrange_ignored in [false, true] {
        let temp = arrange_test_file();
        let path = temp.path();

        if arrange_ignored {
            arrange_ignored_attribute(path);
        }

        let dropbox = Dropbox::new().unwrap();

        assert_eq!(arrange_ignored, dropbox.is_ignored(path_str(path)));
    }
}

#[test]
fn ignore_directory() {
    let temp = arrange_test_directory();
    let path = temp.path();

    let dropbox = Dropbox::new().unwrap();

    dropbox.ignore(path_str(path));

    assert!(dropbox.is_ignored(path_str(path)));
}

#[test]
fn ignore_file() {
    let temp = arrange_test_file();
    let path = temp.path();

    let dropbox = Dropbox::new().unwrap();

    dropbox.ignore(path_str(path));

    assert!(dropbox.is_ignored(path_str(path)));
}

#[test]
fn ignore_missing_path_fails_without_aborting() {
    let dropbox = Dropbox::new().unwrap();
    assert!(!dropbox.ignore("/nonexistent/dropignore-testing/build"));
    assert!(!dropbox.is_ignored("/nonexistent/dropignore-testing/build"));
}

#[test]
fn attribute_value_interpretation() {
    assert!(dropignore::dropbox::attribute_marks_ignored(&vec![b'1']));
    assert!(!dropignore::dropbox::attribute_marks_ignored(&vec![b'0']));
    assert!(!dropignore::dropbox::attribute_marks_ignored(&vec![]));
    assert!(!dropignore::dropbox::attribute_marks_ignored(&vec![b'1', b'1']));
}

fn arrange_test_directory() -> TempDir {
    // The temporary directory must sit on a filesystem with extended
    // attributes; the default temporary location here has them.
    let mut builder = Builder::new();
    builder.prefix(TEST_ITEM_PREFIX);
    builder.tempdir().unwrap()
}

fn arrange_test_file() -> NamedTempFile {
    let mut builder = Builder::new();
    builder.prefix(TEST_ITEM_PREFIX);
    builder.tempfile().unwrap()
}

fn arrange_ignored_attribute(path: &Path) {
    xattr::set(
        path,
        TEST_IGNORE_ATTRIBUTE_KEY,
        &TEST_IGNORE_ATTRIBUTE_VALUE_IGNORED,
    )
    .unwrap();
}
