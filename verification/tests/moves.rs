use fastcull::app::deleted::{
    is_rejected_folder, move_photo, restore_photo, FileId, MoveError, MoveRecord, Reply, Request,
    Seen, Transfer,
};
use fastcull::app::deletion::{next_survivor, restore_listing};
use fastcull::app::path_set::PathSet;
use fastcull::path::PhotoPath;
use std::collections::BTreeMap;

const RAW: &[u8] = b"synthetic RAW bytes\0\xff\r\n";
const XMP: &[u8] = b"<rdf:Description xmp:Rating='5'/>";

#[derive(Clone, Debug, PartialEq)]
enum Kind {
    File(Vec<u8>),
    Folder,
    Link,
    Socket,
}

/// A disk in memory.
#[derive(Clone, Debug, PartialEq)]
struct Disk {
    nodes: BTreeMap<String, (u64, Kind)>,
    next: u64,
}

impl Disk {
    fn new(sidecar: bool) -> Self {
        let mut disk = Disk { nodes: BTreeMap::new(), next: 1 };
        disk.put("/photos", Kind::Folder);
        disk.write("/photos/DSC00001.ARW", RAW);
        if sidecar {
            disk.write("/photos/DSC00001.xmp", XMP);
        }
        disk
    }
    fn put(&mut self, path: &str, kind: Kind) {
        self.nodes.insert(path.to_string(), (self.next, kind));
        self.next += 1;
    }
    fn write(&mut self, path: &str, bytes: &[u8]) {
        self.put(path, Kind::File(bytes.to_vec()));
    }
    fn read(&self, path: &str) -> Option<&[u8]> {
        match self.nodes.get(path) {
            Some((_, Kind::File(bytes))) => Some(bytes),
            _ => None,
        }
    }
    fn inode(&self, path: &str) -> u64 {
        self.nodes[path].0
    }
    fn look(&self, path: &PhotoPath) -> Seen {
        match self.nodes.get(&path.display()) {
            None => Seen::Absent("No such file or directory (os error 2)".to_string()),
            Some((inode, kind)) => {
                let id = FileId { device: 7, inode: *inode };
                match kind {
                    Kind::File(_) => Seen::File(id),
                    Kind::Folder => Seen::Folder(id),
                    Kind::Link | Kind::Socket => Seen::Other,
                }
            }
        }
    }
    fn rename(&mut self, from: &str, to: &str) -> Option<String> {
        if self.nodes.contains_key(to) {
            return Some("File exists (os error 17)".to_string());
        }
        match self.nodes.remove(from) {
            Some(node) => {
                self.nodes.insert(to.to_string(), node);
                None
            }
            None => Some("No such file or directory (os error 2)".to_string()),
        }
    }
    /// Carries out a move; `before` may disturb a rename or refuse it.
    fn run(
        &mut self,
        mut transfer: Transfer,
        before: &mut dyn FnMut(&mut Disk, usize, &str) -> bool,
    ) -> Result<MoveRecord, MoveError> {
        let mut renames = 0;
        for _ in 0..100_000 {
            let reply = match transfer.request() {
                Request::Inspect(paths) => {
                    Reply::Inspected(paths.iter().map(|path| self.look(path)).collect())
                }
                Request::CreateFolder(path) => {
                    let name = path.display();
                    if self.nodes.contains_key(&name) {
                        Reply::Created(Some((true, "File exists (os error 17)".to_string())))
                    } else {
                        self.put(&name, Kind::Folder);
                        Reply::Created(None)
                    }
                }
                Request::Rename(from, to) => {
                    renames += 1;
                    if before(self, renames, &to.display()) {
                        Reply::Renamed(self.rename(&from.display(), &to.display()))
                    } else {
                        Reply::Renamed(Some("Permission denied (os error 13)".to_string()))
                    }
                }
                Request::Finish => return transfer.outcome().unwrap(),
            };
            transfer.answer(reply);
        }
        panic!("the move does not end");
    }
    fn move_away(&mut self) -> Result<MoveRecord, MoveError> {
        let photo = PhotoPath::from_text("/photos/DSC00001.ARW");
        self.run(move_photo(&photo), &mut |_, _, _| true)
    }
    fn restore(&mut self, record: &MoveRecord) -> Result<MoveRecord, MoveError> {
        self.run(restore_photo(record.copied()), &mut |_, _, _| true)
    }
}

fn shown(path: &Option<PhotoPath>) -> Option<String> {
    path.as_ref().map(|path| path.display())
}

#[test]
fn exclusive_pair_move_and_restore_preserve_every_byte_and_inode() {
    let mut disk = Disk::new(true);
    let before = disk.clone();
    let raw_identity = disk.inode("/photos/DSC00001.ARW");
    let sidecar_identity = disk.inode("/photos/DSC00001.xmp");
    let record = disk.move_away().unwrap();
    assert_eq!(record.source.display(), "/photos/DSC00001.ARW");
    assert_eq!(
        record.destination.display(),
        "/photos/_Rejected/DSC00001.ARW"
    );
    assert!(disk.read("/photos/DSC00001.ARW").is_none());
    assert_eq!(disk.read("/photos/_Rejected/DSC00001.ARW"), Some(RAW));
    assert_eq!(disk.inode("/photos/_Rejected/DSC00001.ARW"), raw_identity);
    let sidecar = record.sidecar.as_ref().unwrap();
    assert_eq!(
        sidecar.destination.display(),
        "/photos/_Rejected/DSC00001.xmp"
    );
    assert!(disk.read("/photos/DSC00001.xmp").is_none());
    assert_eq!(disk.read("/photos/_Rejected/DSC00001.xmp"), Some(XMP));
    assert_eq!(disk.inode("/photos/_Rejected/DSC00001.xmp"), sidecar_identity);
    disk.restore(&record).unwrap();
    disk.nodes.remove("/photos/_Rejected").unwrap();
    assert_eq!(disk.nodes, before.nodes);
}

#[test]
fn raw_without_sidecar_moves_and_restores_without_creating_metadata() {
    let mut disk = Disk::new(false);
    let record = disk.move_away().unwrap();
    assert!(record.sidecar.is_none());
    assert!(disk.read("/photos/_Rejected/DSC00001.xmp").is_none());
    disk.restore(&record).unwrap();
    assert_eq!(disk.read("/photos/DSC00001.ARW"), Some(RAW));
    assert!(disk.read("/photos/DSC00001.xmp").is_none());
}

#[test]
fn either_existing_raw_or_sidecar_chooses_a_new_consistent_basename() {
    let mut disk = Disk::new(true);
    disk.put("/photos/_Rejected", Kind::Folder);
    disk.write("/photos/_Rejected/DSC00001.ARW", b"older raw");
    disk.write("/photos/_Rejected/DSC00001-2.xmp", b"orphan metadata");
    disk.write("/photos/_Rejected/DSC00001-3.XMP", b"uppercase metadata");
    let record = disk.move_away().unwrap();
    assert_eq!(
        record.destination.display(),
        "/photos/_Rejected/DSC00001-4.ARW"
    );
    assert_eq!(
        record.sidecar.as_ref().unwrap().destination.display(),
        "/photos/_Rejected/DSC00001-4.xmp"
    );
    assert_eq!(
        disk.read("/photos/_Rejected/DSC00001.ARW"),
        Some(&b"older raw"[..])
    );
    assert_eq!(
        disk.read("/photos/_Rejected/DSC00001-2.xmp"),
        Some(&b"orphan metadata"[..])
    );
    assert_eq!(
        disk.read("/photos/_Rejected/DSC00001-3.XMP"),
        Some(&b"uppercase metadata"[..])
    );
    disk.restore(&record).unwrap();
}

#[test]
fn uppercase_xmp_is_preserved_and_restored_with_its_original_name() {
    let mut disk = Disk::new(false);
    disk.write("/photos/DSC00001.XMP", XMP);
    let record = disk.move_away().unwrap();
    let place = record.sidecar.as_ref().unwrap().destination.display();
    assert_eq!(disk.read(&place), Some(XMP));
    disk.restore(&record).unwrap();
    assert_eq!(disk.read("/photos/DSC00001.XMP"), Some(XMP));
}

#[test]
fn permission_error_before_first_rename_leaves_both_files_in_place() {
    let mut disk = Disk::new(true);
    let photo = PhotoPath::from_text("/photos/DSC00001.ARW");
    let error = disk
        .run(move_photo(&photo), &mut |_, _, _| false)
        .unwrap_err();
    assert!(!error.partial);
    assert_eq!(shown(&error.raw_path), Some("/photos/DSC00001.ARW".into()));
    assert_eq!(
        shown(&error.sidecar_path),
        Some("/photos/DSC00001.xmp".into())
    );
    assert_eq!(disk.read("/photos/DSC00001.ARW"), Some(RAW));
    assert_eq!(disk.read("/photos/DSC00001.xmp"), Some(XMP));
}

#[test]
fn raw_rename_failure_rolls_the_sidecar_back_without_rewriting_it() {
    let mut disk = Disk::new(true);
    let photo = PhotoPath::from_text("/photos/DSC00001.ARW");
    let mut calls = 0;
    let error = disk
        .run(move_photo(&photo), &mut |_, n, _| {
            calls = n;
            n != 2
        })
        .unwrap_err();
    assert_eq!(calls, 3);
    assert!(!error.partial);
    assert_eq!(shown(&error.raw_path), Some("/photos/DSC00001.ARW".into()));
    assert_eq!(disk.read("/photos/DSC00001.ARW"), Some(RAW));
    assert_eq!(disk.read("/photos/DSC00001.xmp"), Some(XMP));
    assert!(disk.read("/photos/_Rejected/DSC00001.xmp").is_none());
}

#[test]
fn collision_created_after_preflight_cannot_replace_an_external_raw() {
    let mut disk = Disk::new(true);
    let photo = PhotoPath::from_text("/photos/DSC00001.ARW");
    let error = disk
        .run(move_photo(&photo), &mut |disk, n, to| {
            if n == 2 {
                disk.write(to, b"external concurrent RAW");
            }
            true
        })
        .unwrap_err();
    assert!(!error.partial);
    assert_eq!(disk.read("/photos/DSC00001.ARW"), Some(RAW));
    assert_eq!(disk.read("/photos/DSC00001.xmp"), Some(XMP));
    assert_eq!(
        disk.read("/photos/_Rejected/DSC00001.ARW"),
        Some(&b"external concurrent RAW"[..])
    );
}

#[test]
fn failed_rollback_reports_split_locations_and_never_overwrites_new_metadata() {
    let mut disk = Disk::new(true);
    let photo = PhotoPath::from_text("/photos/DSC00001.ARW");
    let error = disk
        .run(move_photo(&photo), &mut |disk, n, _| {
            if n == 2 {
                disk.write("/photos/DSC00001.xmp", b"external replacement XMP");
                return false;
            }
            true
        })
        .unwrap_err();
    assert!(error.partial);
    assert_eq!(shown(&error.raw_path), Some("/photos/DSC00001.ARW".into()));
    assert_eq!(
        shown(&error.sidecar_path),
        Some("/photos/_Rejected/DSC00001.xmp".into())
    );
    assert!(error.message().contains("XMP rollback also failed"));
    assert_eq!(disk.read("/photos/DSC00001.ARW"), Some(RAW));
    assert_eq!(
        disk.read("/photos/DSC00001.xmp"),
        Some(&b"external replacement XMP"[..])
    );
    assert_eq!(disk.read("/photos/_Rejected/DSC00001.xmp"), Some(XMP));
}

#[test]
fn restore_conflicts_and_external_replacements_are_left_untouched() {
    let mut disk = Disk::new(true);
    let record = disk.move_away().unwrap();
    disk.write("/photos/DSC00001.ARW", b"new original path RAW");
    let error = disk.restore(&record).unwrap_err();
    assert!(!error.partial);
    assert_eq!(shown(&error.raw_path), Some(record.destination.display()));
    assert_eq!(
        disk.read("/photos/DSC00001.ARW"),
        Some(&b"new original path RAW"[..])
    );
    assert_eq!(disk.read("/photos/_Rejected/DSC00001.ARW"), Some(RAW));
    disk.nodes.remove("/photos/DSC00001.ARW");
    disk.write("/photos/DSC00001.xmp", b"new original XMP");
    assert!(disk.restore(&record).is_err());
    assert_eq!(
        disk.read("/photos/DSC00001.xmp"),
        Some(&b"new original XMP"[..])
    );
    disk.nodes.remove("/photos/DSC00001.xmp");
    disk.rename("/photos/_Rejected/DSC00001.ARW", "/photos/held.ARW");
    disk.write("/photos/_Rejected/DSC00001.ARW", b"different inode RAW");
    let error = disk.restore(&record).unwrap_err();
    assert!(error.partial);
    assert!(error.raw_path.is_none());
    assert_eq!(
        disk.read("/photos/_Rejected/DSC00001.ARW"),
        Some(&b"different inode RAW"[..])
    );
    assert_eq!(disk.read("/photos/held.ARW"), Some(RAW));
}

#[test]
fn failed_restore_of_raw_rolls_metadata_back_into_rejected() {
    let mut disk = Disk::new(true);
    let record = disk.move_away().unwrap();
    let error = disk
        .run(restore_photo(record.copied()), &mut |_, n, _| n != 2)
        .unwrap_err();
    assert!(!error.partial);
    assert_eq!(shown(&error.raw_path), Some(record.destination.display()));
    assert!(disk.read("/photos/DSC00001.ARW").is_none());
    assert_eq!(disk.read("/photos/_Rejected/DSC00001.ARW"), Some(RAW));
    assert_eq!(disk.read("/photos/_Rejected/DSC00001.xmp"), Some(XMP));
}

#[test]
fn nested_rejected_moves_are_refused() {
    for name in ["_Rejected", "_REJECTED", "_rejected"] {
        assert!(is_rejected_folder(&PhotoPath::from_text(name)));
        assert!(is_rejected_folder(
            &PhotoPath::from_text("/photos").join(name.as_bytes())
        ));
    }
    for name in ["deleted", "Rejected", "_Rejected-2", "_Rejected/photos"] {
        assert!(!is_rejected_folder(&PhotoPath::from_text(name)));
    }
    let mut disk = Disk::new(false);
    let record = disk.move_away().unwrap();
    let error = disk
        .run(move_photo(&record.destination), &mut |_, _, _| true)
        .unwrap_err();
    assert!(error.message().contains("already in _Rejected"));
    assert!(!disk.nodes.contains_key("/photos/_Rejected/_Rejected"));
    assert_eq!(disk.read("/photos/_Rejected/DSC00001.ARW"), Some(RAW));
}

#[test]
fn undo_preserves_metadata_created_while_the_photo_was_in_rejected() {
    let mut disk = Disk::new(false);
    let record = disk.move_away().unwrap();
    disk.write("/photos/_Rejected/DSC00001.xmp", b"newly added metadata");
    let sidecar_identity = disk.inode("/photos/_Rejected/DSC00001.xmp");
    disk.restore(&record).unwrap();
    assert_eq!(disk.read("/photos/DSC00001.ARW"), Some(RAW));
    assert_eq!(
        disk.read("/photos/DSC00001.xmp"),
        Some(&b"newly added metadata"[..])
    );
    assert_eq!(disk.inode("/photos/DSC00001.xmp"), sidecar_identity);
    assert!(disk.read("/photos/_Rejected/DSC00001.ARW").is_none());
    assert!(disk.read("/photos/_Rejected/DSC00001.xmp").is_none());
}

#[test]
fn undo_preserves_latest_atomic_xmp_replacement_and_verifies_the_same_raw() {
    let mut disk = Disk::new(true);
    let record = disk.move_away().unwrap();
    let original_identity = disk.inode("/photos/_Rejected/DSC00001.xmp");
    let latest = b"<rdf:Description xmp:Rating='3' custom:Keep='latest unrelated metadata'/>";
    disk.write("/photos/_Rejected/DSC00001.xmp", latest);
    let latest_identity = disk.inode("/photos/_Rejected/DSC00001.xmp");
    assert_ne!(latest_identity, original_identity);
    let raw_identity = disk.inode("/photos/_Rejected/DSC00001.ARW");
    disk.restore(&record).unwrap();
    assert_eq!(disk.read("/photos/DSC00001.xmp"), Some(&latest[..]));
    assert_eq!(disk.inode("/photos/DSC00001.xmp"), latest_identity);
    assert_eq!(disk.inode("/photos/DSC00001.ARW"), raw_identity);
    assert!(disk.read("/photos/_Rejected/DSC00001.ARW").is_none());
    assert!(disk.read("/photos/_Rejected/DSC00001.xmp").is_none());
}

#[test]
fn undo_refuses_missing_or_symlinked_metadata_without_moving_the_raw() {
    let mut disk = Disk::new(true);
    let record = disk.move_away().unwrap();
    disk.nodes.remove("/photos/_Rejected/DSC00001.xmp");
    assert!(disk.restore(&record).is_err());
    assert_eq!(disk.read("/photos/_Rejected/DSC00001.ARW"), Some(RAW));
    assert!(disk.read("/photos/DSC00001.ARW").is_none());
    disk.put("/photos/_Rejected/DSC00001.xmp", Kind::Link);
    assert!(disk.restore(&record).is_err());
    assert_eq!(disk.read("/photos/_Rejected/DSC00001.ARW"), Some(RAW));
    assert_eq!(disk.nodes["/photos/_Rejected/DSC00001.xmp"].1, Kind::Link);
}

#[test]
fn symlinks_directories_and_special_files_are_never_moved() {
    for (path, kind) in [
        ("/photos/DSC00001.ARW", Kind::Link),
        ("/photos/DSC00001.xmp", Kind::Link),
        ("/photos/_Rejected", Kind::Link),
        ("/photos/DSC00001.ARW", Kind::Folder),
        ("/photos/DSC00001.ARW", Kind::Socket),
        ("/photos/_Rejected", Kind::File(b"do not replace".to_vec())),
    ] {
        let mut disk = Disk::new(false);
        disk.put(path, kind);
        assert!(disk.move_away().is_err(), "{path}");
        assert!(disk.nodes.contains_key("/photos/DSC00001.ARW"), "{path}");
    }
}

#[test]
fn broken_destination_symlinks_are_collisions_and_attempts_are_bounded() {
    let mut disk = Disk::new(false);
    disk.put("/photos/_Rejected", Kind::Folder);
    disk.put("/photos/_Rejected/DSC00001.ARW", Kind::Link);
    disk.put("/photos/_Rejected/DSC00001-2.xmp", Kind::File(b"occupied".to_vec()));
    let record = disk.move_away().unwrap();
    assert_eq!(
        record.destination.display(),
        "/photos/_Rejected/DSC00001-3.ARW"
    );
    assert_eq!(disk.nodes["/photos/_Rejected/DSC00001.ARW"].1, Kind::Link);
    let mut disk = Disk::new(false);
    disk.put("/photos/_Rejected", Kind::Folder);
    disk.put("/photos/_Rejected/DSC00001.ARW", Kind::Link);
    for n in 2..=10_001 {
        disk.put(&format!("/photos/_Rejected/DSC00001-{n}.ARW"), Kind::Link);
    }
    assert!(disk.move_away().is_err());
    assert_eq!(disk.read("/photos/DSC00001.ARW"), Some(RAW));
}

fn paths(names: &[&str]) -> Vec<PhotoPath> {
    names.iter().map(|name| PhotoPath::from_text(name)).collect()
}

fn names(files: &Vec<PhotoPath>) -> Vec<String> {
    files.iter().map(|file| file.display()).collect()
}

fn set(files: &[&str]) -> PathSet {
    let mut set = PathSet::new();
    for file in files {
        set.insert(PhotoPath::from_text(file));
    }
    set
}

fn record(source: &str, destination: &str) -> MoveRecord {
    MoveRecord {
        source: PhotoPath::from_text(source),
        destination: PhotoPath::from_text(destination),
        sidecar: None,
        identity: FileId { device: 1, inode: 1 },
    }
}

#[test]
fn restoring_original_folder_reinserts_naturally_without_duplicate_paths() {
    let first = record("/p/DSC1.ARW", "/p/_Rejected/DSC1.ARW");
    let second = record("/p/DSC2.ARW", "/p/_Rejected/DSC2.ARW");
    // Existing and repeated records cannot duplicate an inserted source.
    let listing = restore_listing(
        &paths(&["/p/DSC10.ARW", "/p/DSC1.ARW"]),
        &Some(PhotoPath::from_text("/p")),
        &vec![second.copied(), second, first],
    );
    assert_eq!(
        names(&listing),
        ["/p/DSC1.ARW", "/p/DSC2.ARW", "/p/DSC10.ARW"]
    );
}

#[test]
fn restoring_while_viewing_deleted_removes_destinations_without_adding_parent_files() {
    let moved = record("/p/DSC2.ARW", "/p/_Rejected/DSC2.ARW");
    let before = paths(&["/p/_Rejected/DSC2.ARW", "/p/_Rejected/DSC10.ARW"]);
    let listing = restore_listing(
        &before,
        &Some(PhotoPath::from_text("/p/_Rejected")),
        &vec![moved],
    );
    assert_eq!(names(&listing), ["/p/_Rejected/DSC10.ARW"]);
    assert_eq!(
        shown(&next_survivor(
            &before,
            Some(0),
            &set(&["/p/_Rejected/DSC2.ARW"])
        )),
        Some("/p/_Rejected/DSC10.ARW".into())
    );
}

#[test]
fn undo_from_another_folder_preserves_its_listing_and_selected_survivor() {
    let moved = record("/p/DSC2.ARW", "/p/_Rejected/DSC2.ARW");
    let before = paths(&["/q/DSC1.ARW", "/q/DSC2.ARW"]);
    let listing = restore_listing(&before, &Some(PhotoPath::from_text("/q")), &vec![moved]);
    assert_eq!(names(&listing), names(&before));
    assert_eq!(
        shown(&next_survivor(
            &before,
            Some(1),
            &set(&["/p/_Rejected/DSC2.ARW"])
        )),
        Some("/q/DSC2.ARW".into())
    );
}

#[test]
fn deletion_advances_through_visible_survivors_and_handles_last_photo() {
    let files = paths(&["a", "b", "c", "d"]);
    let survivor = |index, gone: &[&str]| shown(&next_survivor(&files, index, &set(gone)));
    assert_eq!(survivor(Some(1), &["b", "c"]), Some("d".into()));
    assert_eq!(survivor(Some(0), &["b", "c"]), Some("a".into()));
    assert_eq!(survivor(Some(3), &["d"]), Some("c".into()));
    assert_eq!(survivor(Some(0), &["a", "b", "c", "d"]), None);
    assert_eq!(shown(&next_survivor(&Vec::new(), None, &set(&[]))), None);
}

#[test]
fn a_move_keeps_the_spelling_of_its_path() {
    let mut disk = Disk::new(false);
    disk.write("/photos//DSC00002.ARW", RAW);
    disk.write("/photos//DSC00002.xmp", XMP);
    let photo = PhotoPath::from_text("/photos//DSC00002.ARW");
    let record = disk.run(move_photo(&photo), &mut |_, _, _| true).unwrap();
    assert_eq!(record.source.as_raw(), b"/photos//DSC00002.ARW");
    assert_eq!(record.destination.as_raw(), b"/photos/_Rejected/DSC00002.ARW");
    let sidecar = record.sidecar.as_ref().unwrap();
    assert_eq!(sidecar.source.as_raw(), b"/photos//DSC00002.xmp");
    disk.restore(&record).unwrap();
    assert_eq!(disk.read("/photos//DSC00002.ARW"), Some(RAW));
    assert_eq!(disk.read("/photos//DSC00002.xmp"), Some(XMP));
}

#[test]
fn restored_listings_keep_the_spelling_of_their_paths() {
    let path = PhotoPath::from_text;
    let record = |name: &str| MoveRecord {
        source: path(name),
        destination: path("/p/_Rejected/x.ARW"),
        identity: FileId { device: 1, inode: 1 },
        sidecar: None,
    };
    let files = vec![path("/p//3.ARW"), path("/p/./1.ARW")];
    let listing = restore_listing(
        &files,
        &Some(path("/p")),
        &vec![record("/p//2.ARW"), record("/p/3.ARW")],
    );
    let shown: Vec<String> = listing.iter().map(|file| file.display()).collect();
    assert_eq!(shown, ["/p/./1.ARW", "/p//2.ARW", "/p//3.ARW"]);
}
