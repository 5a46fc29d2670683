use std::collections::{BTreeMap, BTreeSet};
use std::io::{Cursor, Read, Write};

use unzip::engine::{Action, Extraction, Outcome};
use unzip::path::EntryKind;
use unzip::plan::{build_plan, EntryMeta, PlannedEntry};
use zip::write::FileOptions;
use zip::{ZipArchive, ZipWriter};

#[derive(Default)]
struct MemDisk {
    dirs: BTreeSet<Vec<u8>>,
    files: BTreeMap<Vec<u8>, Vec<u8>>,
}

impl MemDisk {
    fn create_dir_all(&mut self, path: &[u8]) {
        for (i, b) in path.iter().enumerate() {
            if *b == b'/' && i > 0 {
                self.dirs.insert(path[..i].to_vec());
            }
        }
        if !path.is_empty() {
            self.dirs.insert(path.to_vec());
        }
    }

    fn file(&self, path: &str) -> Option<&Vec<u8>> {
        self.files.get(path.as_bytes())
    }

    fn has_dir(&self, path: &str) -> bool {
        self.dirs.contains(path.as_bytes())
    }
}

enum Entry<'a> {
    Dir(&'a str),
    File(&'a str, &'a str),
}

fn archive(entries: &[Entry]) -> ZipArchive<Cursor<Vec<u8>>> {
    let mut w = ZipWriter::new(Cursor::new(Vec::new()));
    for e in entries {
        match e {
            Entry::Dir(name) => w.add_directory(*name, FileOptions::default()).unwrap(),
            Entry::File(name, body) => {
                w.start_file(*name, FileOptions::default()).unwrap();
                w.write_all(body.as_bytes()).unwrap();
            }
        }
    }
    let cursor = w.finish().unwrap();
    ZipArchive::new(Cursor::new(cursor.into_inner())).unwrap()
}

fn metadata(a: &mut ZipArchive<Cursor<Vec<u8>>>) -> Vec<EntryMeta> {
    (0..a.len())
        .map(|i| {
            let f = a.by_index(i).unwrap();
            EntryMeta { index: i, name: f.name().to_string(), size: f.size() }
        })
        .collect()
}

fn plan_for(a: &mut ZipArchive<Cursor<Vec<u8>>>, root: &str) -> Vec<PlannedEntry> {
    let entries = metadata(a);
    build_plan(&entries, root)
}

/// Runs a plan against the in-memory disk; the entry `fail_at`, if any,
/// fails to decompress. Returns the count on success, or the number of
/// entries written before the failure.
fn run(
    a: &mut ZipArchive<Cursor<Vec<u8>>>,
    plan: Vec<PlannedEntry>,
    disk: &mut MemDisk,
    fail_at: Option<usize>,
) -> Result<usize, usize> {
    let mut ex = Extraction::new(plan);
    loop {
        match ex.next_action() {
            Action::CreateDir { path } => {
                disk.create_dir_all(&path);
                ex.record(Outcome::Done);
            }
            Action::WriteFile { parent, path, index } => {
                disk.create_dir_all(&parent);
                if fail_at == Some(index) {
                    disk.files.insert(path, b"partial".to_vec());
                    ex.record(Outcome::Failed);
                    continue;
                }
                let mut body = Vec::new();
                a.by_index(index).unwrap().read_to_end(&mut body).unwrap();
                disk.files.insert(path, body);
                ex.record(Outcome::Done);
            }
            Action::Finish { count } => return Ok(count),
            Action::Halt => return Err(ex.written()),
        }
    }
}

#[test]
fn round_trip_three_entries() {
    let mut a = archive(&[
        Entry::File("a.txt", "hello"),
        Entry::Dir("dir/"),
        Entry::File("dir/b.txt", "world"),
    ]);
    let plan = plan_for(&mut a, "out");
    let mut disk = MemDisk::default();
    assert_eq!(run(&mut a, plan, &mut disk, None), Ok(3));
    assert_eq!(disk.file("out/a.txt"), Some(&b"hello".to_vec()));
    assert_eq!(disk.file("out/dir/b.txt"), Some(&b"world".to_vec()));
    assert!(disk.has_dir("out/dir"));
    assert_eq!(disk.files.len(), 2);
}

#[test]
fn unsafe_entries_are_skipped_and_not_counted() {
    let mut a = archive(&[
        Entry::File("../../etc/passwd", "root"),
        Entry::File("ok.txt", "fine"),
        Entry::File("/abs.txt", "no"),
    ]);
    let plan = plan_for(&mut a, "out");
    assert_eq!(plan.len(), 1);
    assert_eq!(plan[0].index, 1);
    let mut disk = MemDisk::default();
    assert_eq!(run(&mut a, plan, &mut disk, None), Ok(1));
    assert_eq!(disk.files.len(), 1);
    assert_eq!(disk.file("out/ok.txt"), Some(&b"fine".to_vec()));
    assert!(disk.dirs.iter().all(|d| d.starts_with(b"out")));
}

#[test]
fn second_run_into_same_destination_succeeds() {
    let mut a = archive(&[Entry::Dir("dir/"), Entry::File("dir/b.txt", "world")]);
    let mut disk = MemDisk::default();
    let first = plan_for(&mut a, "out");
    assert_eq!(run(&mut a, first, &mut disk, None), Ok(2));
    let dirs = disk.dirs.clone();
    let files = disk.files.clone();
    let second = plan_for(&mut a, "out");
    assert_eq!(run(&mut a, second, &mut disk, None), Ok(2));
    assert_eq!(disk.dirs, dirs);
    assert_eq!(disk.files, files);
}

#[test]
fn duplicate_name_keeps_later_entry() {
    let mut a = archive(&[Entry::File("x.txt", "first"), Entry::File("x.txt", "second")]);
    let plan = plan_for(&mut a, "out");
    assert_eq!(plan.len(), 2);
    let mut disk = MemDisk::default();
    assert_eq!(run(&mut a, plan, &mut disk, None), Ok(2));
    assert_eq!(disk.file("out/x.txt"), Some(&b"second".to_vec()));
}

#[test]
fn corrupt_entry_stops_the_run() {
    let mut a = archive(&[
        Entry::File("one.txt", "1"),
        Entry::File("two.txt", "2"),
        Entry::File("three.txt", "3"),
    ]);
    let plan = plan_for(&mut a, "out");
    let mut disk = MemDisk::default();
    assert_eq!(run(&mut a, plan, &mut disk, Some(1)), Err(1));
    assert_eq!(disk.file("out/one.txt"), Some(&b"1".to_vec()));
    assert!(disk.file("out/three.txt").is_none());
}

#[test]
fn missing_parents_are_created() {
    let mut a = archive(&[Entry::File("a/b/c.txt", "deep")]);
    let plan = plan_for(&mut a, "out");
    let mut disk = MemDisk::default();
    assert_eq!(run(&mut a, plan, &mut disk, None), Ok(1));
    assert_eq!(disk.file("out/a/b/c.txt"), Some(&b"deep".to_vec()));
    assert!(disk.has_dir("out/a"));
    assert!(disk.has_dir("out/a/b"));
}

#[test]
fn directory_entry_is_planned_as_directory() {
    let mut a = archive(&[Entry::Dir("only/")]);
    let plan = plan_for(&mut a, "dest");
    assert_eq!(plan.len(), 1);
    assert_eq!(plan[0].target.kind, EntryKind::Directory);
    assert_eq!(plan[0].target.output_path, b"dest/only".to_vec());
}

#[test]
fn state_machine_steps_in_plan_order() {
    let entries = vec![
        EntryMeta { index: 0, name: "d/".to_string(), size: 0 },
        EntryMeta { index: 1, name: "../x".to_string(), size: 4 },
        EntryMeta { index: 2, name: "d/f.txt".to_string(), size: 4 },
    ];
    let mut ex = Extraction::new(build_plan(&entries, "r"));
    assert_eq!(ex.total(), 2);
    match ex.next_action() {
        Action::CreateDir { path } => assert_eq!(path, b"r/d".to_vec()),
        _ => panic!("expected a directory"),
    }
    ex.record(Outcome::Done);
    match ex.next_action() {
        Action::WriteFile { parent, path, index } => {
            assert_eq!(parent, b"r/d".to_vec());
            assert_eq!(path, b"r/d/f.txt".to_vec());
            assert_eq!(index, 2);
        }
        _ => panic!("expected a file"),
    }
    ex.record(Outcome::Done);
    assert!(matches!(ex.next_action(), Action::Finish { count: 2 }));
    assert_eq!(ex.written(), 2);
}

#[test]
fn aborted_run_stays_halted() {
    let entries = vec![
        EntryMeta { index: 0, name: "a".to_string(), size: 1 },
        EntryMeta { index: 1, name: "b".to_string(), size: 1 },
    ];
    let mut ex = Extraction::new(build_plan(&entries, "r"));
    ex.record(Outcome::Failed);
    assert!(ex.is_aborted());
    assert!(matches!(ex.next_action(), Action::Halt));
    ex.record(Outcome::Done);
    assert!(matches!(ex.next_action(), Action::Halt));
    assert_eq!(ex.written(), 0);
}

#[test]
fn empty_plan_finishes_at_once() {
    let ex = Extraction::new(build_plan(&Vec::new(), "r"));
    assert!(matches!(ex.next_action(), Action::Finish { count: 0 }));
}
