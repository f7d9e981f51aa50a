use rustshooter::map_loader::{
    collect_archive_files, extract_archive, map_load_next, normalize_archive_path,
    overlay_label_text, path_has_file_name, spawn_point_fields, update_spawn_points,
    ExtractedMap, MapLoadEvent, MapLoadPhase, OverlayAction, OverlayLabel, SpawnPoints,
    load_request, spawn_file,
};
use rustshooter::protocol::MapUrlMsg;

/// A tar entry whose header holds `name` byte for byte.
fn raw_entry(builder: &mut tar::Builder<Vec<u8>>, name: &str, data: &[u8], dir: bool) {
    raw_entry_bytes(builder, name.as_bytes(), data, dir)
}

fn raw_entry_bytes(builder: &mut tar::Builder<Vec<u8>>, name: &[u8], data: &[u8], dir: bool) {
    let mut h = tar::Header::new_gnu();
    {
        let gnu = h.as_gnu_mut().unwrap();
        gnu.name[..name.len()].copy_from_slice(name);
    }
    h.set_size(data.len() as u64);
    h.set_mode(0o644);
    h.set_entry_type(if dir { tar::EntryType::Directory } else { tar::EntryType::Regular });
    h.set_cksum();
    builder.append(&h, data).unwrap();
}

fn tar_zst(entries: &[(&str, &[u8], bool)]) -> Vec<u8> {
    let mut b = tar::Builder::new(Vec::new());
    for (name, data, dir) in entries {
        raw_entry(&mut b, name, data, *dir);
    }
    let tar_bytes = b.into_inner().unwrap();
    ruzstd::encoding::compress_to_vec(&tar_bytes[..], ruzstd::encoding::CompressionLevel::Fastest)
}

#[test]
fn extracts_files_by_normalised_path() {
    let archive = tar_zst(&[
        ("./scene.glb", b"SCENE", false),
        ("textures/", b"", true),
        ("textures\\floor.png", b"PNG", false),
        ("spawn_points.txt", b"1 2 3\n", false),
        ("./collision.glb", b"COL", false),
    ]);
    let m = extract_archive(&archive).unwrap();
    // A directory entry still names a file for `Path::file_name`, so it is
    // kept under its path, with no contents.
    assert_eq!(m.len(), 5);
    assert_eq!(m.get("textures/"), Some(&Vec::new()));
    assert_eq!(m.get("scene.glb"), Some(&b"SCENE".to_vec()));
    assert_eq!(m.get("collision.glb"), Some(&b"COL".to_vec()));
    assert_eq!(m.get("textures/floor.png"), Some(&b"PNG".to_vec()));
    assert_eq!(m.get("spawn_points.txt"), Some(&b"1 2 3\n".to_vec()));
    assert_eq!(spawn_file(&m), Some(&b"1 2 3\n".to_vec()));
    assert_eq!(spawn_file(&ExtractedMap::new()), None);
    assert_eq!(m.get("./scene.glb"), None);
}

#[test]
fn later_entries_replace_earlier_ones() {
    let archive = tar_zst(&[("a.txt", b"one", false), ("./a.txt", b"two", false)]);
    let m = extract_archive(&archive).unwrap();
    assert_eq!(m.len(), 1);
    assert_eq!(m.get("a.txt"), Some(&b"two".to_vec()));
}

#[test]
fn empty_archive_gives_no_files() {
    let tar_bytes = vec![0u8; 1024];
    let archive =
        ruzstd::encoding::compress_to_vec(&tar_bytes[..], ruzstd::encoding::CompressionLevel::Fastest);
    let m = extract_archive(&archive).unwrap();
    assert_eq!(m.len(), 0);
}

#[test]
fn broken_input_is_an_error() {
    assert!(extract_archive(&[1, 2, 3, 4, 5, 6, 7, 8]).is_err());
    assert!(extract_archive(&[]).is_err());
    let garbage = vec![0xffu8; 512];
    let archive =
        ruzstd::encoding::compress_to_vec(&garbage[..], ruzstd::encoding::CompressionLevel::Fastest);
    assert!(extract_archive(&archive).is_err());
}

#[test]
fn path_normalisation() {
    assert_eq!(normalize_archive_path("./././a/b"), "a/b");
    assert_eq!(normalize_archive_path("a\\b\\c"), "a/b/c");
    assert_eq!(normalize_archive_path(".\\a"), "./a");
    assert_eq!(normalize_archive_path(""), "");
    assert_eq!(normalize_archive_path("../x"), "../x");
}

#[test]
fn file_names_like_std_path() {
    for p in ["scene.glb", "a/b.png", "a/b/", "a/./", "a/b/.", ".", "..", "a/..", "/", "", "./", "x//", ".hidden"] {
        assert_eq!(
            path_has_file_name(p),
            std::path::Path::new(p).file_name().is_some(),
            "{:?}",
            p
        );
    }
}

#[test]
fn collected_map_operations() {
    let m = collect_archive_files(vec![
        (b"./x".to_vec(), vec![1]),
        (b"./".to_vec(), vec![]),
        (b"y".to_vec(), vec![2]),
    ]);
    assert_eq!(m.len(), 2);
    assert_eq!(m.get("x"), Some(&vec![1]));
    let mut e = ExtractedMap::new();
    assert_eq!(e.len(), 0);
    e.insert("k".to_string(), vec![9]);
    e.insert("k".to_string(), vec![8]);
    e.insert("j".to_string(), vec![7]);
    assert_eq!(e.len(), 2);
    assert_eq!(e.get("k"), Some(&vec![8]));
    assert_eq!(e.get("z"), None);
    assert_eq!(e.entries().len(), 2);
}

#[test]
fn spawn_fields_from_text() {
    let text = "-15.0 2.0 -15.0\n 15.0 2.0  15.0 extra\n\n   \r\n1 2\n\t-15.0 2.0 15.0\r\n";
    let f = spawn_point_fields(text);
    assert_eq!(
        f,
        vec![
            vec!["-15.0", "2.0", "-15.0"],
            vec!["15.0", "2.0", "15.0"],
            vec!["-15.0", "2.0", "15.0"],
        ]
    );
    assert!(spawn_point_fields("").is_empty());
    assert_eq!(spawn_point_fields("1 2 3"), vec![vec!["1", "2", "3"]]);
}

#[test]
fn spawn_points_replaced_only_by_a_non_empty_list() {
    let mut cur = SpawnPoints(vec![1, 2, 3, 4]);
    assert!(!update_spawn_points(&mut cur, vec![]));
    assert_eq!(cur.0, vec![1, 2, 3, 4]);
    assert!(update_spawn_points(&mut cur, vec![9]));
    assert_eq!(cur.0, vec![9]);
    let r = load_request(MapUrlMsg { url: "https://example.com/m.tar.zst".to_string() });
    assert_eq!(r.0, "https://example.com/m.tar.zst");
}

#[test]
fn loader_happy_path() {
    let (p, a) = map_load_next(MapLoadPhase::Idle, MapLoadEvent::EnteredPlaying);
    assert_eq!(p, MapLoadPhase::WaitingForServer);
    assert_eq!(a, OverlayAction::Show(OverlayLabel::WaitingForServer));
    let (p, a) = map_load_next(p, MapLoadEvent::UrlReceived);
    assert_eq!((p, a), (MapLoadPhase::Downloading, OverlayAction::Relabel(OverlayLabel::Downloading)));
    let (p, a) = map_load_next(p, MapLoadEvent::DownloadSucceeded);
    assert_eq!((p, a), (MapLoadPhase::LoadingAssets, OverlayAction::Relabel(OverlayLabel::LoadingAssets)));
    let (p, a) = map_load_next(p, MapLoadEvent::SceneLoaded);
    assert_eq!(
        (p, a),
        (MapLoadPhase::SettingUpPhysics, OverlayAction::Relabel(OverlayLabel::SettingUpPhysics))
    );
    let (p, a) = map_load_next(p, MapLoadEvent::CollidersReady);
    assert_eq!((p, a), (MapLoadPhase::Idle, OverlayAction::Hide));
}

#[test]
fn loader_timeouts_and_failures() {
    assert_eq!(
        map_load_next(MapLoadPhase::WaitingForServer, MapLoadEvent::WaitTimedOut),
        (MapLoadPhase::Idle, OverlayAction::Hide)
    );
    assert_eq!(
        map_load_next(MapLoadPhase::Downloading, MapLoadEvent::WaitTimedOut),
        (MapLoadPhase::Downloading, OverlayAction::Keep)
    );
    assert_eq!(
        map_load_next(MapLoadPhase::Downloading, MapLoadEvent::DownloadFailed),
        (MapLoadPhase::Idle, OverlayAction::Hide)
    );
    assert_eq!(
        map_load_next(MapLoadPhase::Idle, MapLoadEvent::SceneLoaded),
        (MapLoadPhase::Idle, OverlayAction::Keep)
    );
}

#[test]
fn overlay_texts() {
    assert_eq!(overlay_label_text(OverlayLabel::WaitingForServer), "Waiting for server map...");
    assert_eq!(overlay_label_text(OverlayLabel::Downloading), "Downloading map...");
    assert_eq!(overlay_label_text(OverlayLabel::LoadingAssets), "Loading map assets...");
    assert_eq!(overlay_label_text(OverlayLabel::SettingUpPhysics), "Setting up physics...");
}

#[test]
fn non_utf8_paths_are_decoded_lossily() {
    let mut b = tar::Builder::new(Vec::new());
    raw_entry_bytes(&mut b, b"maps/a\xffb.txt", b"X", false);
    raw_entry_bytes(&mut b, b"\xe2\x82.bin", b"Y", false);
    let tar_bytes = b.into_inner().unwrap();
    let archive =
        ruzstd::encoding::compress_to_vec(&tar_bytes[..], ruzstd::encoding::CompressionLevel::Fastest);
    let m = extract_archive(&archive).unwrap();
    assert_eq!(m.len(), 2);
    assert_eq!(m.get("maps/a\u{fffd}b.txt"), Some(&b"X".to_vec()));
    assert_eq!(m.get("\u{fffd}.bin"), Some(&b"Y".to_vec()));
}
