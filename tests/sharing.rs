use lanshare::address::{choose_primary, resolve_addresses, HostAddress, InterfaceAddress};
use lanshare::manifest::{
    build_server_files, file_extension, forward_slashes, unique_id, SelectedPath, ServerFile,
    ShareError, WalkedEntry,
};
use lanshare::serve::{
    content_disposition, content_type, escape_html, find_file, format_size, render_index,
    sanitize_filename, SizeUnit,
};
use lanshare::session::{check_selection, copy_session, describe_session, ActiveShare, ShareSlot};

fn file(path: &str, name: &str, size: u64) -> SelectedPath {
    SelectedPath::File { path: path.to_string(), name: name.to_string(), size }
}

fn walked(path: &str, relative: &str, name: &str, size: u64, is_file: bool) -> WalkedEntry {
    WalkedEntry {
        path: path.to_string(),
        relative: relative.to_string(),
        name: name.to_string(),
        size,
        is_file,
    }
}

fn docs_dir() -> SelectedPath {
    SelectedPath::Directory {
        label: "docs".to_string(),
        entries: vec![
            walked("/home/u/docs", "", "docs", 0, false),
            walked("/home/u/docs/readme.txt", "readme.txt", "readme.txt", 5, true),
            walked("/home/u/docs/sub", "sub", "sub", 0, false),
            walked("/home/u/docs/sub/note.txt", "sub\\note.txt", "note.txt", 7, true),
        ],
    }
}

fn iface(host: HostAddress, loopback: bool) -> InterfaceAddress {
    InterfaceAddress { host, loopback }
}

#[test]
fn single_file_manifest() {
    let files = build_server_files(&vec![file("/tmp/share/a.txt", "a.txt", 10)], &vec![]).unwrap();
    assert_eq!(files.len(), 1);
    assert_eq!(files[0].download_name, "a.txt");
    assert_eq!(files[0].display_name, "a.txt");
    assert_eq!(files[0].size, 10);
    assert_eq!(files[0].extension.as_deref(), Some("txt"));
    assert_eq!(files[0].path, "/tmp/share/a.txt");
    assert!(!files[0].id.is_empty());
    assert!(content_disposition(&files[0].download_name).contains("a.txt"));
}

#[test]
fn directory_manifest_uses_forward_slashes() {
    let files = build_server_files(&vec![docs_dir()], &vec![]).unwrap();
    assert_eq!(files.len(), 2);
    assert_eq!(files[0].display_name, "docs/readme.txt");
    assert_eq!(files[1].display_name, "docs/sub/note.txt");
    assert_eq!(files[1].download_name, "note.txt");
    assert_eq!(files[1].size, 7);
}

#[test]
fn manifest_counts_regular_files_only() {
    let items = vec![file("/a/x.bin", "x.bin", 1), docs_dir(), file("/a/y", "y", 2)];
    let files = build_server_files(&items, &vec![]).unwrap();
    assert_eq!(files.len(), 4);
    assert_eq!(files[0].display_name, "x.bin");
    assert_eq!(files[3].display_name, "y");
    assert_eq!(files[3].extension, None);
}

#[test]
fn empty_path_list_is_invalid_selection() {
    assert!(matches!(check_selection(&vec![]), Err(ShareError::InvalidSelection)));
    assert!(check_selection(&vec!["/tmp".to_string()]).is_ok());
}

#[test]
fn selection_without_files_is_empty_selection() {
    let empty_dir = SelectedPath::Directory {
        label: "empty".to_string(),
        entries: vec![walked("/e", "", "empty", 0, false)],
    };
    assert!(matches!(build_server_files(&vec![empty_dir], &vec![]), Err(ShareError::EmptySelection)));
    assert!(matches!(build_server_files(&vec![], &vec![]), Err(ShareError::EmptySelection)));
}

#[test]
fn ids_are_unique_and_fresh_against_previous_session() {
    let items = vec![docs_dir(), file("/a/b.txt", "b.txt", 3)];
    let first = build_server_files(&items, &vec![]).unwrap();
    let taken: Vec<String> = first.iter().map(|f| f.id.clone()).collect();
    let second = build_server_files(&items, &taken).unwrap();
    for (i, a) in second.iter().enumerate() {
        for b in second.iter().skip(i + 1) {
            assert_ne!(a.id, b.id);
        }
        assert!(!taken.contains(&a.id));
    }
}

#[test]
fn unique_id_avoids_taken_ids() {
    let taken = vec!["abc".to_string(), "abcdef".to_string()];
    assert_eq!(unique_id("xyz".to_string(), &taken), "xyz");
    let r = unique_id("abc".to_string(), &taken);
    assert!(!taken.contains(&r));
    assert_eq!(r, "abcdef-");
}

#[test]
fn mime_is_guessed_from_extension() {
    let files = build_server_files(
        &vec![file("/p/a.txt", "a.txt", 1), file("/p/b.png", "b.png", 1), file("/p/c", "c", 1)],
        &vec![],
    )
    .unwrap();
    assert_eq!(files[0].mime.as_deref(), Some("text/plain"));
    assert_eq!(files[1].mime.as_deref(), Some("image/png"));
    assert_eq!(files[2].mime, None);
    assert_eq!(content_type(&files[0].mime), "text/plain");
    assert_eq!(content_type(&files[2].mime), "application/octet-stream");
}

#[test]
fn file_extension_follows_leaf_name() {
    assert_eq!(file_extension("a.txt").as_deref(), Some("txt"));
    assert_eq!(file_extension("archive.tar.gz").as_deref(), Some("gz"));
    assert_eq!(file_extension(".bashrc"), None);
    assert_eq!(file_extension("noext"), None);
    assert_eq!(file_extension("trailing.").as_deref(), Some(""));
}

#[test]
fn forward_slashes_turns_backslashes() {
    let r: String = forward_slashes("a\\b\\c.txt").into_iter().collect();
    assert_eq!(r, "a/b/c.txt");
}

#[test]
fn lookup_by_id_only() {
    let files = build_server_files(&vec![docs_dir()], &vec![]).unwrap();
    assert_eq!(find_file(&files, &files[1].id), Some(1));
    assert_eq!(find_file(&files, &files[0].id), Some(0));
    assert_eq!(find_file(&files, "00000000-0000-4000-8000-000000000000"), None);
    assert_eq!(find_file(&files, "/home/u/docs/readme.txt"), None);
}

#[test]
fn stop_twice_is_noop() {
    let mut slot: ShareSlot<u32> = ShareSlot::new();
    assert!(slot.snapshot().is_none());
    assert!(slot.take_active().is_none());
    assert!(slot.take_active().is_none());
    assert!(slot.snapshot().is_none());
    assert!(!slot.is_active());
}

#[test]
fn replace_hands_out_previous_share() {
    let files = build_server_files(&vec![file("/a/a.txt", "a.txt", 10)], &vec![]).unwrap();
    let mut slot: ShareSlot<u32> = ShareSlot::new();
    slot.install(ActiveShare { handle: 1, session: describe_session(4000, &vec![], &files) });
    assert_eq!(slot.snapshot().unwrap().port, 4000);
    assert_eq!(slot.active_ids(), vec![files[0].id.clone()]);
    let old = slot.take_active().unwrap();
    assert_eq!(old.handle, 1);
    assert!(slot.snapshot().is_none());
    slot.install(ActiveShare { handle: 2, session: describe_session(4001, &vec![], &files) });
    assert_eq!(slot.snapshot().unwrap().port, 4001);
    slot.take_active();
    assert!(slot.take_active().is_none());
    assert!(slot.snapshot().is_none());
}

#[test]
fn loopback_always_resolved() {
    let urls = resolve_addresses(8080, &vec![]);
    assert_eq!(urls, vec!["http://127.0.0.1:8080".to_string(), "http://localhost:8080".to_string()]);
}

#[test]
fn resolve_sorts_and_dedups() {
    let ifaces = vec![
        iface(HostAddress::V4(192, 168, 1, 5), false),
        iface(HostAddress::V4(127, 0, 0, 1), true),
        iface(HostAddress::V6("fe80::1".to_string()), false),
        iface(HostAddress::V4(192, 168, 1, 5), false),
        iface(HostAddress::V4(10, 0, 0, 2), false),
    ];
    let urls = resolve_addresses(5000, &ifaces);
    assert_eq!(
        urls,
        vec![
            "http://10.0.0.2:5000".to_string(),
            "http://127.0.0.1:5000".to_string(),
            "http://192.168.1.5:5000".to_string(),
            "http://[fe80::1]:5000".to_string(),
            "http://localhost:5000".to_string(),
        ]
    );
}

#[test]
fn primary_prefers_private_ipv4() {
    let a = vec![
        "http://127.0.0.1:9".to_string(),
        "http://8.8.8.8:9".to_string(),
        "http://172.20.0.1:9".to_string(),
        "http://192.168.0.3:9".to_string(),
    ];
    assert_eq!(choose_primary(&a, 9), "http://172.20.0.1:9");
    let b = vec!["http://127.0.0.1:9".to_string(), "http://[fe80::1]:9".to_string(), "http://localhost:9".to_string()];
    assert_eq!(choose_primary(&b, 9), "http://[fe80::1]:9");
    let c = vec!["http://172.32.0.1:9".to_string()];
    assert_eq!(choose_primary(&c, 9), "http://172.32.0.1:9");
    let d = vec!["http://localhost:9".to_string()];
    assert_eq!(choose_primary(&d, 9), "http://127.0.0.1:9");
    assert_eq!(choose_primary(&vec![], 77), "http://127.0.0.1:77");
}

#[test]
fn describe_session_lists_files_and_primary() {
    let files = build_server_files(&vec![file("/a/a.txt", "a.txt", 10)], &vec![]).unwrap();
    let ifaces = vec![iface(HostAddress::V4(192, 168, 2, 9), false)];
    let s = describe_session(1234, &ifaces, &files);
    assert_eq!(s.port, 1234);
    assert_eq!(s.primary_url, "http://192.168.2.9:1234");
    assert_eq!(s.addresses.len(), 3);
    assert_eq!(s.files.len(), 1);
    assert_eq!(s.files[0].download_name, "a.txt");
    assert_eq!(s.files[0].size, 10);
    let c = copy_session(&s);
    assert_eq!(c.addresses, s.addresses);
    assert_eq!(c.files[0].id, s.files[0].id);
}

#[test]
fn format_size_values() {
    assert_eq!(format_size(0), "0 B");
    assert_eq!(format_size(10), "10 B");
    assert_eq!(format_size(1023), "1023 B");
    assert_eq!(format_size(1024), "1.0 KB");
    assert_eq!(format_size(1536), "1.5 KB");
    assert_eq!(format_size(1280), "1.2 KB");
    assert_eq!(format_size(1048575), "1024.0 KB");
    assert_eq!(format_size(1048576), "1.0 MB");
    assert_eq!(format_size(5 * 1073741824), "5.0 GB");
    assert_eq!(format_size(3 * 1099511627776), "3.0 TB");
    assert_eq!(format_size(2048 * 1099511627776), "2048.0 TB");
}

#[test]
fn format_size_matches_float_formatting() {
    for size in [1025u64, 1100, 1280, 2560 * 1024 + 51, 2047, 4095, 10240, 123456, 999999, 1572864, 7340032, 987654321] {
        let mut value = size as f64;
        let mut unit = 0;
        let units = ["B", "KB", "MB", "GB", "TB"];
        while value >= 1024.0 && unit < 4 {
            value /= 1024.0;
            unit += 1;
        }
        assert_eq!(format_size(size), format!("{value:.1} {}", units[unit]));
    }
}

#[test]
fn escape_and_sanitize() {
    assert_eq!(escape_html("<a href=\"x\">Tom & 'Jerry'</a>"), "&lt;a href=&quot;x&quot;&gt;Tom &amp; &#39;Jerry&#39;&lt;/a&gt;");
    assert_eq!(escape_html("plain"), "plain");
    assert_eq!(sanitize_filename("a/b\\c:d*e?f\"g<h>i|j.txt"), "a_b_c_d_e_f_g_h_i_j.txt");
    assert_eq!(content_disposition("x\"y.txt"), "attachment; filename=\"x_y.txt\"");
}

#[test]
fn index_page_lists_files() {
    let files: Vec<ServerFile> = build_server_files(&vec![docs_dir()], &vec![]).unwrap();
    let html = render_index(&files);
    assert!(html.contains("2 files, 12 B"));
    assert!(html.contains(&format!("href=\"/files/{}\"", files[0].id)));
    assert!(html.contains("docs/sub/note.txt"));
    assert!(!html.contains("/home/u/docs"));
}

#[test]
fn size_unit_multipliers() {
    assert_eq!(SizeUnit::B.multiplier(), 1);
    assert_eq!(SizeUnit::KB.multiplier(), 1024);
    assert_eq!(SizeUnit::MB.multiplier(), 1024 * 1024);
    assert_eq!(SizeUnit::GB.multiplier(), 1024 * 1024 * 1024);
    assert_eq!(SizeUnit::TB.multiplier(), 1024u64.pow(4));
}
