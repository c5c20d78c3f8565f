//! The library at work on a disk that is held in memory: the steps it asks
//! for are carried out on a map from paths to objects.

use std::collections::BTreeMap;

use rip::engine::{exhume, plan_burial, resolve_collision};
use rip::journal::{delete_lines_from_record, render, scan, write_log};
use rip::path::path_starts_with;
use rip::transfer::{
    Action, Event, FileKind, Outcome, Transfer, TransferError, TreeEntry, BIG_FILE_THRESHOLD,
    MARKER,
};

const GRAVEYARD: &str = "/tmp/graveyard";

#[derive(Clone, Debug, PartialEq)]
enum Node {
    Dir(u32),
    File(String, u32),
    Link(String),
    Fifo(u32),
    Device,
}

#[derive(Clone, Debug, PartialEq)]
struct Disk {
    nodes: BTreeMap<String, Node>,
    /// Whether a rename works. It does not between two volumes.
    one_volume: bool,
    /// A file whose copy fails.
    unreadable: Option<String>,
    /// What the user will answer, first answer first.
    answers: Vec<bool>,
    journal: String,
}

fn parent(path: &str) -> String {
    match path.rfind('/') {
        Some(0) | None => "/".to_string(),
        Some(at) => path[..at].to_string(),
    }
}

impl Disk {
    fn new(one_volume: bool) -> Disk {
        let mut nodes = BTreeMap::new();
        nodes.insert("/".to_string(), Node::Dir(0o755));
        Disk { nodes, one_volume, unreadable: None, answers: Vec::new(), journal: String::new() }
    }

    fn put(&mut self, path: &str, node: Node) {
        self.make_dirs(&parent(path));
        self.nodes.insert(path.to_string(), node);
    }

    fn file(&mut self, path: &str, content: &str) {
        self.put(path, Node::File(content.to_string(), 0o644));
    }

    fn make_dirs(&mut self, path: &str) {
        if path != "/" && !self.nodes.contains_key(path) {
            self.make_dirs(&parent(path));
            self.nodes.insert(path.to_string(), Node::Dir(0o755));
        }
    }

    fn below(&self, root: &str) -> Vec<String> {
        self.nodes.keys().filter(|k| path_starts_with(k, root)).cloned().collect()
    }

    fn place(&mut self, path: &str, node: Node) -> Event {
        if self.nodes.contains_key(path) || !matches!(self.nodes.get(&parent(path)), Some(Node::Dir(_))) {
            return Event::Failed;
        }
        self.nodes.insert(path.to_string(), node);
        Event::Done
    }

    fn remove(&mut self, root: &str) -> Event {
        for path in self.below(root) {
            self.nodes.remove(&path);
        }
        Event::Done
    }

    fn entry(&self, path: &str) -> TreeEntry {
        let (kind, size, mode) = match &self.nodes[path] {
            Node::Dir(mode) => (FileKind::Directory, 4096, *mode),
            Node::File(content, mode) => (FileKind::File, content.len() as u64, *mode),
            Node::Link(target) => (FileKind::Symlink, target.len() as u64, 0o777),
            Node::Fifo(mode) => (FileKind::Fifo, 0, *mode),
            Node::Device => (FileKind::Special, 0, 0o600),
        };
        TreeEntry { path: path.to_string(), kind, size, mode }
    }

    fn perform(&mut self, action: &Action) -> Event {
        match action {
            Action::Rename { from, to } => {
                if !self.one_volume
                    || !self.nodes.contains_key(from)
                    || self.nodes.contains_key(to)
                    || !self.nodes.contains_key(&parent(to))
                {
                    return Event::Failed;
                }
                for path in self.below(from) {
                    let node = self.nodes.remove(&path).unwrap();
                    self.nodes.insert(format!("{}{}", to, &path[from.len()..]), node);
                }
                Event::Done
            }
            Action::CreateParents { of } => {
                self.make_dirs(&parent(of));
                Event::Done
            }
            Action::Survey { root } => {
                if !self.nodes.contains_key(root) {
                    return Event::Failed;
                }
                Event::Listed(self.below(root).iter().map(|p| self.entry(p)).collect())
            }
            Action::CreateDir { path, mode } => self.place(path, Node::Dir(*mode)),
            Action::CopyFile { from, to } => match self.nodes.get(from).cloned() {
                Some(Node::File(content, mode)) if self.unreadable.as_ref() != Some(from) => {
                    self.place(to, Node::File(content, mode))
                }
                _ => Event::Failed,
            },
            Action::Link { from, to } => match self.nodes.get(from).cloned() {
                Some(Node::Link(target)) => self.place(to, Node::Link(target)),
                _ => Event::Failed,
            },
            Action::MakeFifo { path, mode } => self.place(path, Node::Fifo(*mode)),
            Action::Confirm { .. } => Event::Answer(self.answers.remove(0)),
            Action::WriteMarker { path } => self.place(path, Node::File(MARKER.to_string(), 0o644)),
            Action::RemoveSource { path, tree } => {
                assert_eq!(*tree, matches!(self.nodes.get(path), Some(Node::Dir(_))));
                self.remove(path)
            }
            Action::RollBack { path } => self.remove(path),
            Action::Finish { .. } => unreachable!(),
        }
    }

    fn transfer(&mut self, source: &str, dest: &str) -> Outcome {
        let (mut state, mut action) = Transfer::begin(source, dest, BIG_FILE_THRESHOLD);
        loop {
            if let Action::Finish { outcome } = action {
                assert_eq!(state.outcome(), Some(outcome));
                return outcome;
            }
            let event = self.perform(&action);
            action = state.step(event);
        }
    }

    fn occupied(&self) -> Vec<String> {
        self.nodes.keys().cloned().collect()
    }

    fn bury(&mut self, source: &str, actor: &str) -> Outcome {
        let burial = plan_burial(source, GRAVEYARD, actor, &self.occupied()).unwrap();
        let outcome = self.transfer(source, &burial.grave);
        if outcome == Outcome::Moved {
            let line = write_log(&burial.actor, &burial.original, &burial.grave).unwrap();
            self.journal.push_str(&line);
        }
        outcome
    }

    /// Restores what the request selects, and says where each object went.
    fn unbury(&mut self, explicit: &[&str], scope: Option<&str>, actor: &str) -> Vec<String> {
        let records = scan(&self.journal).unwrap();
        let present: Vec<String> =
            records.iter().map(|r| r.grave.clone()).filter(|g| self.nodes.contains_key(g)).collect();
        let explicit: Vec<String> = explicit.iter().map(|g| g.to_string()).collect();
        let chosen = exhume(&explicit, scope, &records, actor, GRAVEYARD, &present);
        let mut struck = chosen.stale;
        let mut restored = Vec::new();
        for record in &chosen.records {
            let to = resolve_collision(&record.original, &self.occupied());
            if self.transfer(&record.grave, &to) == Outcome::Moved {
                struck.push(record.grave.clone());
                restored.push(to);
            }
        }
        self.journal = render(&delete_lines_from_record(&records, &struck)).unwrap();
        restored
    }
}

fn tree(disk: &mut Disk) {
    disk.put("/home/u/tree", Node::Dir(0o700));
    disk.file("/home/u/tree/one", "1");
    disk.file("/home/u/tree/two", "22");
    disk.put("/home/u/tree/sub", Node::Dir(0o750));
    disk.file("/home/u/tree/sub/three", "333");
    disk.file("/home/u/tree/sub/four", "4444");
    disk.put("/home/u/tree/sub/deep", Node::Dir(0o755));
    disk.file("/home/u/tree/sub/deep/five", "55555");
    disk.put("/home/u/tree/link", Node::Link("one".to_string()));
    disk.put("/home/u/tree/pipe", Node::Fifo(0o600));
}

#[test]
fn a_buried_file_comes_back_as_it_was() {
    for one_volume in [true, false] {
        let mut disk = Disk::new(one_volume);
        disk.file("/tmp/work/report.txt", "hello");
        let before = disk.clone();

        assert_eq!(disk.bury("/tmp/work/report.txt", "alice"), Outcome::Moved);
        assert!(!disk.nodes.contains_key("/tmp/work/report.txt"));
        assert_eq!(
            disk.nodes["/tmp/graveyard/tmp/work/report.txt"],
            Node::File("hello".to_string(), 0o644)
        );
        assert_eq!(
            disk.journal,
            "alice\t/tmp/work/report.txt\t/tmp/graveyard/tmp/work/report.txt\n"
        );

        assert_eq!(disk.unbury(&[], None, "alice"), vec!["/tmp/work/report.txt"]);
        assert_eq!(disk.nodes["/tmp/work/report.txt"], before.nodes["/tmp/work/report.txt"]);
        assert!(disk.below("/tmp/graveyard/tmp/work/report.txt").is_empty());
        assert_eq!(disk.journal, "");
    }
}

#[test]
fn two_objects_that_map_to_one_grave_both_rest() {
    for one_volume in [true, false] {
        let mut disk = Disk::new(one_volume);
        disk.file("/a/x.txt", "1");
        assert_eq!(disk.bury("/a/x.txt", "alice"), Outcome::Moved);
        disk.file("/a/x.txt", "2");
        assert_eq!(disk.bury("/a/x.txt", "alice"), Outcome::Moved);

        assert_eq!(disk.nodes["/tmp/graveyard/a/x.txt"], Node::File("1".to_string(), 0o644));
        assert_eq!(disk.nodes["/tmp/graveyard/a/x.txt~1"], Node::File("2".to_string(), 0o644));

        assert_eq!(disk.unbury(&["/tmp/graveyard/a/x.txt"], None, "alice"), vec!["/a/x.txt"]);
        assert_eq!(disk.nodes["/a/x.txt"], Node::File("1".to_string(), 0o644));
        assert_eq!(disk.unbury(&["/tmp/graveyard/a/x.txt~1"], None, "alice"), vec!["/a/x.txt~1"]);
        assert_eq!(disk.nodes["/a/x.txt~1"], Node::File("2".to_string(), 0o644));
        assert_eq!(disk.journal, "");
    }
}

#[test]
fn a_buried_tree_comes_back_whole() {
    for one_volume in [true, false] {
        let mut disk = Disk::new(one_volume);
        tree(&mut disk);
        let before = disk.clone();

        assert_eq!(disk.bury("/home/u/tree", "alice"), Outcome::Moved);
        assert!(disk.below("/home/u/tree").is_empty());
        let buried = disk.below("/tmp/graveyard/home/u/tree");
        assert_eq!(buried.len(), before.below("/home/u/tree").len());
        for path in &buried {
            let original = &path["/tmp/graveyard".len()..];
            assert_eq!(disk.nodes[path], before.nodes[original]);
        }

        assert_eq!(disk.unbury(&[], None, "alice"), vec!["/home/u/tree"]);
        assert_eq!(disk.below("/home/u/tree"), before.below("/home/u/tree"));
        for path in disk.below("/home/u/tree") {
            assert_eq!(disk.nodes[&path], before.nodes[&path]);
        }
        assert!(disk.below("/tmp/graveyard/home/u/tree").is_empty());
    }
}

#[test]
fn a_copy_that_fails_leaves_no_partial_grave() {
    let mut disk = Disk::new(false);
    disk.put("/home/u/five", Node::Dir(0o755));
    for name in ["a", "b", "c", "d", "e"] {
        disk.file(&format!("/home/u/five/{}", name), name);
    }
    disk.unreadable = Some("/home/u/five/c".to_string());
    let before = disk.clone();

    assert_eq!(disk.bury("/home/u/five", "alice"), Outcome::Failed(TransferError::PartialTransfer));
    assert!(disk.below("/tmp/graveyard/home/u/five").is_empty());
    assert_eq!(disk.below("/home/u/five"), before.below("/home/u/five"));
    for path in disk.below("/home/u/five") {
        assert_eq!(disk.nodes[&path], before.nodes[&path]);
    }
    assert_eq!(disk.journal, "");
}

#[test]
fn the_last_burial_is_the_first_to_come_back() {
    let mut disk = Disk::new(true);
    for name in ["/w/a", "/w/b", "/w/c"] {
        disk.file(name, name);
        assert_eq!(disk.bury(name, "alice"), Outcome::Moved);
    }
    assert_eq!(disk.unbury(&[], None, "alice"), vec!["/w/c"]);
    assert_eq!(disk.unbury(&[], None, "alice"), vec!["/w/b"]);
    assert_eq!(disk.unbury(&[], None, "alice"), vec!["/w/a"]);
    assert_eq!(disk.unbury(&[], None, "alice"), Vec::<String>::new());
    assert_eq!(disk.journal, "");
}

#[test]
fn what_alice_buried_does_not_come_back_to_bob() {
    let mut disk = Disk::new(true);
    disk.file("/w/a", "a");
    assert_eq!(disk.bury("/w/a", "alice"), Outcome::Moved);
    let buried = disk.clone();
    assert_eq!(disk.unbury(&[], None, "bob"), Vec::<String>::new());
    assert_eq!(disk, buried);
    assert_eq!(disk.unbury(&[], None, "alice"), vec!["/w/a"]);
}

#[test]
fn a_grave_that_was_removed_is_struck_from_the_journal() {
    let mut disk = Disk::new(true);
    for name in ["/w/a", "/w/b"] {
        disk.file(name, name);
        assert_eq!(disk.bury(name, "alice"), Outcome::Moved);
    }
    disk.remove("/tmp/graveyard/w/b");
    assert_eq!(disk.unbury(&[], None, "alice"), vec!["/w/a"]);
    assert_eq!(disk.journal, "");

    let mut disk = Disk::new(true);
    disk.file("/w/a", "a");
    assert_eq!(disk.bury("/w/a", "alice"), Outcome::Moved);
    disk.remove("/tmp/graveyard/w/a");
    assert_eq!(disk.unbury(&[], None, "alice"), Vec::<String>::new());
    assert_eq!(disk.journal, "");
}

#[test]
fn the_graves_of_a_directory_come_back_together() {
    let mut disk = Disk::new(true);
    for name in ["/home/u/a", "/home/u/sub/b", "/srv/c"] {
        disk.file(name, name);
        assert_eq!(disk.bury(name, "alice"), Outcome::Moved);
    }
    assert_eq!(disk.unbury(&[], Some("/home/u"), "bob"), vec!["/home/u/a", "/home/u/sub/b"]);
    assert_eq!(disk.journal, "alice\t/srv/c\t/tmp/graveyard/srv/c\n");
}

#[test]
fn an_object_whose_place_is_taken_comes_back_beside_it() {
    let mut disk = Disk::new(false);
    disk.file("/w/a", "old");
    assert_eq!(disk.bury("/w/a", "alice"), Outcome::Moved);
    disk.file("/w/a", "new");
    assert_eq!(disk.unbury(&[], None, "alice"), vec!["/w/a~1"]);
    assert_eq!(disk.nodes["/w/a"], Node::File("new".to_string(), 0o644));
    assert_eq!(disk.nodes["/w/a~1"], Node::File("old".to_string(), 0o644));
}

#[test]
fn a_special_file_that_is_given_up_leaves_a_marker() {
    let mut disk = Disk::new(false);
    disk.put("/dev/thing", Node::Device);
    disk.answers = vec![true];
    assert_eq!(disk.bury("/dev/thing", "alice"), Outcome::Moved);
    assert!(!disk.nodes.contains_key("/dev/thing"));
    assert_eq!(disk.nodes["/tmp/graveyard/dev/thing"], Node::File(MARKER.to_string(), 0o644));

    let mut disk = Disk::new(false);
    disk.put("/dev/thing", Node::Device);
    disk.answers = vec![false];
    let before = disk.clone();
    assert_eq!(
        disk.bury("/dev/thing", "alice"),
        Outcome::Failed(TransferError::NonTransferableType)
    );
    assert_eq!(disk.nodes["/dev/thing"], before.nodes["/dev/thing"]);
    assert!(disk.below("/tmp/graveyard/dev/thing").is_empty());
}
