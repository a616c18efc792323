use cdn_sync::manifest::{
    file_url, groups_to_sync, manifest_url, prefix_of, total_download_size, CdnFile,
};

fn file(name: &str, size: u32, hash: &str) -> CdnFile {
    CdnFile { name: name.to_string(), size, blake3: hash.to_string() }
}

#[test]
fn prefix_is_directory_and_slash() {
    assert_eq!(prefix_of("iw4"), "iw4/");
    assert_eq!(prefix_of(""), "/");
    assert_eq!(prefix_of("a/b"), "a/b/");
}

#[test]
fn group_membership_goes_by_prefix() {
    let f = file("engine/bin/a.exe", 1, "00");
    assert!(f.in_group("engine/"));
    assert!(!f.in_group("engine-extra/"));
    assert!(!f.in_group("bin/"));
    assert!(f.in_group(""));
    assert!(!file("engine", 1, "00").in_group("engine/"));
}

#[test]
fn local_name_drops_the_group_prefix() {
    assert_eq!(file("engine/a.exe", 1, "00").local_name("engine/"), "a.exe");
    assert_eq!(file("engine/zone/x.ff", 1, "00").local_name("engine/"), "zone/x.ff");
}

#[test]
fn local_name_drops_every_occurrence_of_the_prefix() {
    assert_eq!(file("engine/mods/engine/a", 1, "00").local_name("engine/"), "mods/a");
}

#[test]
fn clone_keeps_every_field() {
    let f = file("g/a", 7, "AbC");
    let c = f.clone();
    assert_eq!(c.name, "g/a");
    assert_eq!(c.size, 7);
    assert_eq!(c.blake3, "AbC");
}

#[test]
fn download_size_sums_the_group() {
    let list = vec![
        file("iw4/a", 10, "00"),
        file("iw4-bonus/b", 100, "00"),
        file("iw4/sub/c", 1000, "00"),
        file("iw4", 10000, "00"),
    ];
    assert_eq!(total_download_size(&list, "iw4"), 1010);
    assert_eq!(total_download_size(&list, "iw4-bonus"), 100);
    assert_eq!(total_download_size(&list, "iw5"), 0);
    assert_eq!(total_download_size(&vec![], "iw4"), 0);
}

#[test]
fn download_size_exceeds_32_bits() {
    let list = vec![file("g/a", u32::MAX, "00"), file("g/b", u32::MAX, "00"), file("g/c", 2, "00")];
    assert_eq!(total_download_size(&list, "g"), 8_589_934_592);
}

#[test]
fn manifest_url_is_files_json() {
    assert_eq!(manifest_url("https://cdn.example.org"), "https://cdn.example.org/files.json");
}

#[test]
fn file_url_with_and_without_token() {
    assert_eq!(
        file_url("https://cdn.example.org", "iw4/a.exe", None),
        "https://cdn.example.org/iw4/a.exe"
    );
    assert_eq!(
        file_url("https://cdn.example.org", "iw4/a.exe", Some("x7Kq2p")),
        "https://cdn.example.org/iw4/a.exe?x7Kq2p"
    );
}

#[test]
fn groups_are_engine_then_bonus() {
    let bonus = vec!["iw4-bonus".to_string(), "iw4-extra".to_string()];
    assert_eq!(groups_to_sync("iw4", &bonus, false), vec!["iw4".to_string()]);
    assert_eq!(
        groups_to_sync("iw4", &bonus, true),
        vec!["iw4".to_string(), "iw4-bonus".to_string(), "iw4-extra".to_string()]
    );
    assert_eq!(groups_to_sync("iw4", &vec![], true), vec!["iw4".to_string()]);
}
