use kernel::vfs::{init, segments, Entry, VfsError};

fn names(entry: &Entry) -> Vec<String> {
    match entry {
        Entry::Directory { entries } => entries.iter().map(|pair| pair.0.clone()).collect(),
        Entry::File { .. } => panic!("a file has no entries"),
    }
}

fn child<'a>(entry: &'a Entry, name: &str) -> &'a Entry {
    match entry {
        Entry::Directory { entries } => &entries.iter().find(|pair| pair.0 == name).unwrap().1,
        Entry::File { .. } => panic!("a file has no entries"),
    }
}

fn content(entry: &Entry) -> Vec<u8> {
    match entry {
        Entry::File { content } => content.clone(),
        Entry::Directory { .. } => panic!("a directory has no content"),
    }
}

fn file_with(bytes: &[u8]) -> Entry {
    Entry::File { content: bytes.to_vec() }
}

fn path(names: &[&str]) -> Vec<String> {
    names.iter().map(|name| name.to_string()).collect()
}

#[test]
fn new_entries_are_empty() {
    assert!(names(&Entry::new_dir()).is_empty());
    assert!(content(&Entry::new_file()).is_empty());
}

#[test]
fn segments_are_the_parts_between_slashes() {
    assert_eq!(segments("/tty/stdout"), path(&["tty", "stdout"]));
    assert_eq!(segments("tty"), path(&["tty"]));
    assert_eq!(segments("//a///b/"), path(&["a", "b"]));
    assert_eq!(segments("a/\u{e4}\u{20ac}/c"), path(&["a", "\u{e4}\u{20ac}", "c"]));
    assert!(segments("").is_empty());
    assert!(segments("///").is_empty());
}

#[test]
fn make_puts_an_entry_into_the_root() {
    let mut root = Entry::new_dir();
    assert_eq!(root.make("/tty", || Entry::new_dir()), Ok(()));
    assert_eq!(root.make("log", || file_with(b"x")), Ok(()));
    assert_eq!(names(&root), vec!["tty", "log"]);
    assert!(names(child(&root, "tty")).is_empty());
    assert_eq!(content(child(&root, "log")), b"x");
}

#[test]
fn make_puts_an_entry_into_a_directory_below() {
    let mut root = Entry::new_dir();
    root.make("/a", || Entry::new_dir()).unwrap();
    root.make("/a/b", || Entry::new_dir()).unwrap();
    root.make("/a/b/c", || file_with(b"deep")).unwrap();
    root.make("/a/d", || Entry::new_file()).unwrap();
    assert_eq!(names(&root), vec!["a"]);
    assert_eq!(names(child(&root, "a")), vec!["b", "d"]);
    assert_eq!(content(child(child(child(&root, "a"), "b"), "c")), b"deep");
}

#[test]
fn make_replaces_an_entry_of_the_same_name() {
    let mut root = Entry::new_dir();
    root.make("/a", || Entry::new_dir()).unwrap();
    root.make("/a/b", || Entry::new_file()).unwrap();
    root.make("/c", || Entry::new_file()).unwrap();
    root.make("/a", || file_with(b"now a file")).unwrap();
    assert_eq!(names(&root), vec!["a", "c"]);
    assert_eq!(content(child(&root, "a")), b"now a file");
}

#[test]
fn make_refuses_a_path_through_a_missing_directory() {
    let mut root = Entry::new_dir();
    root.make("/a", || Entry::new_dir()).unwrap();
    assert_eq!(root.make("/b/c", || Entry::new_file()), Err(VfsError::NotFound));
    assert_eq!(root.make("/a/b/c", || Entry::new_file()), Err(VfsError::NotFound));
    assert_eq!(names(&root), vec!["a"]);
    assert!(names(child(&root, "a")).is_empty());
}

#[test]
fn make_refuses_a_path_into_a_file() {
    let mut root = Entry::new_dir();
    root.make("/f", || file_with(b"data")).unwrap();
    assert_eq!(root.make("/f/x", || Entry::new_file()), Err(VfsError::DirEntry));
    assert_eq!(root.make("/f/x/y", || Entry::new_file()), Err(VfsError::DirEntry));
    assert_eq!(content(child(&root, "f")), b"data");
    let mut file = Entry::new_file();
    assert_eq!(file.make("/x", || Entry::new_file()), Err(VfsError::DirEntry));
}

#[test]
fn make_without_a_name_uses_the_empty_name() {
    let mut root = Entry::new_dir();
    assert_eq!(root.make("/", || file_with(b"1")), Ok(()));
    assert_eq!(root.make("", || file_with(b"2")), Ok(()));
    assert_eq!(names(&root), vec![""]);
    assert_eq!(content(child(&root, "")), b"2");
}

#[test]
fn inspect_hands_the_entry_at_the_path_to_the_function() {
    let mut root = Entry::new_dir();
    root.make("/a", || Entry::new_dir()).unwrap();
    root.make("/a/f", || file_with(b"old")).unwrap();
    let result = root.inspect(&path(&["a", "f"]), |entry| match entry {
        Entry::File { content } => {
            content.extend_from_slice(b"+new");
            Ok(())
        }
        Entry::Directory { .. } => Err(VfsError::DirEntry),
    });
    assert_eq!(result, Ok(()));
    assert_eq!(content(child(child(&root, "a"), "f")), b"old+new");
}

#[test]
fn inspect_stops_at_a_file_on_the_way() {
    let mut root = Entry::new_dir();
    root.make("/f", || file_with(b"x")).unwrap();
    let result = root.inspect(&path(&["f", "below", "more"]), |entry| match entry {
        Entry::File { content } => {
            *content = b"seen".to_vec();
            Err(VfsError::DirEntry)
        }
        Entry::Directory { .. } => Ok(()),
    });
    assert_eq!(result, Err(VfsError::DirEntry));
    assert_eq!(content(child(&root, "f")), b"seen");
}

#[test]
fn inspect_of_the_empty_path_is_given_the_root() {
    let mut root = Entry::new_dir();
    root.make("/a", || Entry::new_dir()).unwrap();
    let result = root.inspect(&Vec::new(), |entry| {
        *entry = file_with(b"root");
        Ok(())
    });
    assert_eq!(result, Ok(()));
    assert_eq!(content(&root), b"root");
}

#[test]
fn inspect_reports_a_name_that_is_missing() {
    let mut root = Entry::new_dir();
    root.make("/a", || Entry::new_dir()).unwrap();
    let result = root.inspect(&path(&["a", "b"]), |entry| {
        *entry = file_with(b"never");
        Ok(())
    });
    assert_eq!(result, Err(VfsError::NotFound));
    assert!(names(child(&root, "a")).is_empty());
}

#[test]
fn first_entry_of_a_name_counts() {
    let mut root = Entry::Directory {
        entries: vec![
            ("x".to_string(), file_with(b"first")),
            ("x".to_string(), file_with(b"second")),
        ],
    };
    root.make("/x", || file_with(b"new")).unwrap();
    match &root {
        Entry::Directory { entries } => {
            assert_eq!(content(&entries[0].1), b"new");
            assert_eq!(content(&entries[1].1), b"second");
        }
        Entry::File { .. } => panic!("the root is a directory"),
    }
}

#[test]
fn clone_copies_the_whole_tree() {
    let mut root = Entry::new_dir();
    root.make("/a", || Entry::new_dir()).unwrap();
    root.make("/a/f", || file_with(b"data")).unwrap();
    let copy = root.clone();
    root.make("/a/f", || file_with(b"changed")).unwrap();
    root.make("/b", || Entry::new_file()).unwrap();
    assert_eq!(names(&copy), vec!["a"]);
    assert_eq!(names(child(&copy, "a")), vec!["f"]);
    assert_eq!(content(child(child(&copy, "a"), "f")), b"data");
    assert_eq!(content(child(child(&root, "a"), "f")), b"changed");
}

#[test]
fn retrieve_changes_nothing() {
    let mut root = Entry::new_dir();
    root.make("/a", || Entry::new_file()).unwrap();
    root.retrieve("/a");
    assert_eq!(names(&root), vec!["a"]);
}

#[test]
fn init_lays_out_the_console_files() {
    let mut root = Entry::new_dir();
    root.make("/keep", || file_with(b"k")).unwrap();
    root.make("/tty", || file_with(b"in the way")).unwrap();
    assert_eq!(init(&mut root), Ok(()));
    assert_eq!(names(&root), vec!["keep", "tty"]);
    assert_eq!(names(child(&root, "tty")), vec!["stdout", "stdin"]);
    assert!(content(child(child(&root, "tty"), "stdout")).is_empty());
    assert!(content(child(child(&root, "tty"), "stdin")).is_empty());
    assert_eq!(content(child(&root, "keep")), b"k");
}

#[test]
fn init_refuses_a_root_that_is_a_file() {
    let mut root = file_with(b"not a directory");
    assert_eq!(init(&mut root), Err(VfsError::DirEntry));
    assert_eq!(content(&root), b"not a directory");
}
