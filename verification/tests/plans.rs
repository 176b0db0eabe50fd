use pc_sharer::collect::{
    collect_files, folder_relative_path, request_title, transfer_title, FolderFile, Found, SourcePath,
};
use pc_sharer::model::{FileManifest, LocalFileEntry, TransferRequest};
use pc_sharer::paths::{
    number_name, sanitize_relative_path, temp_path_for, unique_destination_path, InboxPath, Platform,
    RelativePath,
};
use pc_sharer::receive::{build_receive_plan, resume_offset};

fn parts(path: &RelativePath) -> Vec<String> {
    let mut all = path.folders.clone();
    all.push(path.file_name.clone());
    all
}

fn safe(path: &str) -> String {
    parts(&sanitize_relative_path(path, Platform::Other)).join("/")
}

fn safe_windows(path: &str) -> String {
    parts(&sanitize_relative_path(path, Platform::Windows)).join("/")
}

fn shown(path: &InboxPath) -> String {
    format!("{}/{}", path.inbox, parts(&path.relative).join("/"))
}

fn at(path: &str) -> InboxPath {
    InboxPath { inbox: "/in".to_string(), relative: sanitize_relative_path(path, Platform::Other) }
}

fn request(files: &[(&str, u64)]) -> TransferRequest {
    TransferRequest {
        protocol: "pc-sharer-v2".to_string(),
        version: "2.0.0".to_string(),
        transfer_id: "t1".to_string(),
        sender_id: "s".to_string(),
        sender_name: "sender".to_string(),
        file_count: files.len(),
        total_bytes: files.iter().map(|f| f.1).sum(),
        files: files
            .iter()
            .map(|f| FileManifest { relative_path: f.0.to_string(), size: f.1 })
            .collect(),
    }
}

fn plan(files: &[(&str, u64)], disk: &[(&str, u64)]) -> Vec<(String, String, u64)> {
    let stat = |p: &InboxPath| {
        let name = shown(p);
        disk.iter().find(|f| f.0 == name).map(|f| f.1)
    };
    build_receive_plan("/in", &request(files), Platform::Other, &stat)
        .iter()
        .map(|p| (shown(&p.final_path), shown(&p.temp_path), p.offset))
        .collect()
}

fn file(name: &str, source: usize, size: u64) -> SourcePath {
    SourcePath {
        shown: format!("/home/u/{name}"),
        found: Found::File { source, name: Some(name.to_string()), size },
    }
}

fn manifest(path: &str) -> FileManifest {
    FileManifest { relative_path: path.to_string(), size: 1 }
}

fn entry(path: &str) -> LocalFileEntry {
    LocalFileEntry { source: 0, relative_path: path.to_string(), size: 1 }
}

#[test]
fn folders_of_a_path_are_kept() {
    assert_eq!(safe("photos/2024/a.jpg"), "photos/2024/a.jpg");
    assert_eq!(safe("photos\\2024\\a.jpg"), "photos/2024/a.jpg");
    assert_eq!(safe("a b/中文.txt"), "a b/中文.txt");
}

#[test]
fn a_path_does_not_leave_the_inbox() {
    assert_eq!(safe("../../etc/passwd"), "etc/passwd");
    assert_eq!(safe("/etc/passwd"), "etc/passwd");
    assert_eq!(safe("a/./b//c/../d"), "a/b/c/d");
    assert_eq!(safe("..\\..\\x"), "x");
    assert_eq!(safe("a/.."), "a");
}

#[test]
fn a_path_without_a_name_gets_one() {
    for path in ["", "/", "..", "./..", "\\\\", "..//."] {
        assert_eq!(safe(path), "received-file", "{path}");
    }
}

#[test]
fn a_drive_is_left_out_on_windows_only() {
    assert_eq!(safe_windows("C:/Users/x.txt"), "Users/x.txt");
    assert_eq!(safe_windows("c:x.txt"), "received-file");
    assert_eq!(safe_windows("a/D:/b"), "a/b");
    assert_eq!(safe_windows("1:/b"), "1:/b");
    assert_eq!(safe("C:/Users/x.txt"), "C:/Users/x.txt");
}

#[test]
fn sanitizing_agrees_with_path_components() {
    for path in [
        "a", "a/b", "./a", "../a", "a/..", "...", ".hidden", "a/.b/..c", "a./b.", " ", "a//b", "//", "a\\b",
    ] {
        let normalized = path.replace('\\', "/");
        let mut expected = std::path::PathBuf::new();
        for part in normalized.split('/') {
            let component = std::path::Path::new(part).components().next();
            if let Some(std::path::Component::Normal(value)) = component {
                expected.push(value);
            }
        }
        if expected.as_os_str().is_empty() {
            expected.push("received-file");
        }
        assert_eq!(safe(path), expected.to_str().unwrap(), "{path}");
    }
}

#[test]
fn a_number_goes_before_the_extension() {
    assert_eq!(number_name("a.txt", 1), "a (1).txt");
    assert_eq!(number_name("a", 12), "a (12)");
    assert_eq!(number_name(".bashrc", 2), ".bashrc (2)");
    assert_eq!(number_name("a.tar.gz", 3), "a.tar (3).gz");
    assert_eq!(number_name("a.", 4), "a (4)");
}

#[test]
fn numbering_agrees_with_stem_and_extension() {
    for name in ["a.txt", "a", ".b", ".b.c", "a.", "a..b", "...", "中.文", "a.b.c.d", "..a"] {
        let path = std::path::Path::new(name);
        let stem = path.file_stem().unwrap().to_str().unwrap();
        let expected = match path.extension().map(|e| e.to_str().unwrap()) {
            Some(e) if !e.is_empty() => format!("{stem} (7).{e}"),
            _ => format!("{stem} (7)"),
        };
        assert_eq!(number_name(name, 7), expected, "{name}");
    }
}

#[test]
fn a_free_path_is_used_as_it_is() {
    let free = |_: &InboxPath| None;
    assert_eq!(shown(&unique_destination_path(&at("d/a.txt"), &free)), "/in/d/a.txt");
}

#[test]
fn the_first_free_number_is_used() {
    let taken = ["/in/d/a.txt", "/in/d/a (1).txt", "/in/d/a (3).txt"];
    let stat = |p: &InboxPath| if taken.contains(&shown(p).as_str()) { Some(0) } else { None };
    assert_eq!(shown(&unique_destination_path(&at("d/a.txt"), &stat)), "/in/d/a (2).txt");
}

#[test]
fn with_all_numbers_taken_the_path_itself_is_used() {
    let full = |_: &InboxPath| Some(1);
    assert_eq!(shown(&unique_destination_path(&at("a.txt"), &full)), "/in/a.txt");
    let last = |p: &InboxPath| if p.relative.file_name == "a (9999).txt" { None } else { Some(1) };
    assert_eq!(shown(&unique_destination_path(&at("a.txt"), &last)), "/in/a (9999).txt");
}

#[test]
fn the_unfinished_part_is_beside_the_file() {
    assert_eq!(shown(&temp_path_for(&at("d/a.txt"), "t1")), "/in/d/a.txt.t1.part");
    assert_ne!(
        shown(&temp_path_for(&at("d/a.txt"), "t1")),
        shown(&temp_path_for(&at("d/a.txt"), "t2")),
    );
}

#[test]
fn new_files_are_needed_from_the_start() {
    assert_eq!(
        plan(&[("d/a.txt", 10), ("b", 0)], &[]),
        vec![
            ("/in/d/a.txt".to_string(), "/in/d/a.txt.t1.part".to_string(), 0),
            ("/in/b".to_string(), "/in/b.t1.part".to_string(), 0),
        ],
    );
}

#[test]
fn an_unfinished_part_is_resumed() {
    let found = plan(&[("a.txt", 10)], &[("/in/a.txt.t1.part", 4)]);
    assert_eq!(found[0].2, 4);
    let other = plan(&[("a.txt", 10)], &[("/in/a.txt.t2.part", 4)]);
    assert_eq!(other[0].2, 0);
    let whole = plan(&[("a.txt", 10)], &[("/in/a.txt.t1.part", 10)]);
    assert_eq!(whole[0].2, 10);
    let too_long = plan(&[("a.txt", 10)], &[("/in/a.txt.t1.part", 11)]);
    assert_eq!(too_long[0].2, 0);
}

#[test]
fn a_file_of_the_same_size_is_kept() {
    let found = plan(&[("a.txt", 10)], &[("/in/a.txt", 10)]);
    assert_eq!(found[0], ("/in/a.txt".to_string(), "/in/a.txt.t1.part".to_string(), 10));
}

#[test]
fn a_file_of_another_size_is_spared() {
    let found = plan(&[("a.txt", 10)], &[("/in/a.txt", 3)]);
    assert_eq!(found[0], ("/in/a (1).txt".to_string(), "/in/a (1).txt.t1.part".to_string(), 0));
    let again = plan(&[("a.txt", 10)], &[("/in/a.txt", 3), ("/in/a (1).txt.t1.part", 7)]);
    assert_eq!(again[0].2, 7);
}

#[test]
fn an_offset_counts_only_where_it_fits() {
    assert_eq!(resume_offset(Some(5), None, 5), 5);
    assert_eq!(resume_offset(Some(6), Some(3), 5), 0);
    assert_eq!(resume_offset(None, Some(3), 5), 3);
    assert_eq!(resume_offset(None, Some(6), 5), 0);
    assert_eq!(resume_offset(None, None, 5), 0);
}

#[test]
fn files_are_collected_in_the_order_of_their_paths() {
    let folder = SourcePath {
        shown: "/home/u/photos".to_string(),
        found: Found::Folder {
            name: Some("photos".to_string()),
            files: vec![
                FolderFile { source: 2, inside: "z.jpg".to_string(), size: 3 },
                FolderFile { source: 3, inside: "2024\\a.jpg".to_string(), size: 4 },
            ],
        },
    };
    let files = collect_files(&vec![file("zoo.txt", 0, 1), folder, file("a.txt", 1, 2)]).unwrap();
    let found: Vec<(usize, String, u64)> =
        files.into_iter().map(|f| (f.source, f.relative_path, f.size)).collect();
    assert_eq!(
        found,
        vec![
            (1, "a.txt".to_string(), 2),
            (3, "photos/2024/a.jpg".to_string(), 4),
            (2, "photos/z.jpg".to_string(), 3),
            (0, "zoo.txt".to_string(), 1),
        ],
    );
}

#[test]
fn files_of_the_same_path_stay_in_the_order_in_which_they_were_chosen() {
    let files = collect_files(&vec![file("b", 0, 1), file("a", 1, 1), file("b", 2, 1), file("a", 3, 1)]);
    let order: Vec<usize> = files.unwrap().into_iter().map(|f| f.source).collect();
    assert_eq!(order, vec![1, 3, 0, 2]);
}

#[test]
fn many_files_are_sorted() {
    let sources: Vec<SourcePath> = (0..500)
        .map(|i: usize| file(&format!("f{:03}", (i * 271) % 500), i, 1))
        .collect();
    let names: Vec<String> =
        collect_files(&sources).unwrap().into_iter().map(|f| f.relative_path).collect();
    let mut sorted = names.clone();
    sorted.sort();
    assert_eq!(names, sorted);
    assert_eq!(names.len(), 500);
}

#[test]
fn a_folder_without_a_name_is_called_folder() {
    assert_eq!(folder_relative_path(&None, "a.txt"), "folder/a.txt");
    assert_eq!(folder_relative_path(&Some("d".to_string()), "e\\a.txt"), "d/e/a.txt");
}

#[test]
fn the_first_path_that_cannot_be_sent_is_the_error() {
    let missing = SourcePath { shown: "/gone".to_string(), found: Found::Missing };
    let odd = SourcePath {
        shown: "/odd".to_string(),
        found: Found::File { source: 0, name: None, size: 1 },
    };
    let unreadable = SourcePath {
        shown: "/d".to_string(),
        found: Found::Unreadable { message: "遍历文件夹失败: x".to_string() },
    };
    assert_eq!(collect_files(&vec![file("a", 0, 1), missing]).unwrap_err(), "路径不存在: /gone");
    assert_eq!(collect_files(&vec![odd, unreadable]).unwrap_err(), "无法读取文件名: /odd");
    let alone = SourcePath {
        shown: "/d".to_string(),
        found: Found::Unreadable { message: "遍历文件夹失败: x".to_string() },
    };
    assert_eq!(collect_files(&vec![alone]).unwrap_err(), "遍历文件夹失败: x");
}

#[test]
fn what_is_neither_file_nor_folder_is_passed_over() {
    let other = SourcePath { shown: "/dev/x".to_string(), found: Found::Other };
    assert_eq!(collect_files(&vec![other]).unwrap().len(), 0);
    assert_eq!(collect_files(&Vec::new()).unwrap().len(), 0);
}

#[test]
fn a_title_names_the_first_file() {
    assert_eq!(transfer_title(&[]), "空传输");
    assert_eq!(transfer_title(&[entry("a.txt")]), "a.txt");
    assert_eq!(transfer_title(&[entry("a.txt"), entry("b"), entry("c")]), "a.txt 等 3 个文件");
    assert_eq!(request_title(&[]), "未命名传输");
    assert_eq!(request_title(&[manifest("a.txt")]), "a.txt");
    assert_eq!(request_title(&[manifest("a.txt"), manifest("b")]), "a.txt 等 2 个文件");
}

#[test]
fn a_path_that_leads_above_gets_fixed_names() {
    let above = InboxPath {
        inbox: "/in".to_string(),
        relative: RelativePath { folders: vec!["d".to_string()], file_name: "..".to_string() },
    };
    let path = std::path::Path::new("/in/d/..");
    let expected = path.with_file_name("received-file.t1.part");
    assert_eq!(shown(&temp_path_for(&above, "t1")), expected.to_str().unwrap());
    let first = |p: &InboxPath| if p.relative.file_name == ".." { Some(1) } else { None };
    assert_eq!(shown(&unique_destination_path(&above, &first)), "/in/d/file (1)");
}

#[test]
fn a_resumed_file_keeps_its_place() {
    let taken = [("/in/a.txt", 3), ("/in/a (1).txt", 5)];
    let first = plan(&[("a.txt", 10)], &taken);
    assert_eq!(first[0].0, "/in/a (2).txt");
    let later = [taken[0], taken[1], (first[0].1.as_str(), 6)];
    let second = plan(&[("a.txt", 10)], &later);
    assert_eq!((second[0].0.as_str(), second[0].2), ("/in/a (2).txt", 6));
}

#[test]
fn folders_are_preserved_from_sender_to_receiver() {
    let sent = folder_relative_path(&Some("photos".to_string()), "2024\\may/a.jpg");
    assert_eq!(safe(&sent), "photos/2024/may/a.jpg");
}

#[test]
fn a_numbered_name_leads_to_no_drive() {
    let taken = |p: &InboxPath| if p.relative.file_name == "C" { Some(1) } else { None };
    let windows = InboxPath {
        inbox: "/in".to_string(),
        relative: sanitize_relative_path("d/C", Platform::Windows),
    };
    let free = unique_destination_path(&windows, &taken);
    assert_eq!(shown(&free), "/in/d/C (1)");
    assert_eq!(safe_windows("d/C (1)"), "d/C (1)");
}
