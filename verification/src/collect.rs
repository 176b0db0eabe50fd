//! Which files are sent for the paths that the user chose.

use crate::model::{local_files, FileManifest, LocalFileEntry, LocalFileView};
use crate::order::{
    arrange, arranged, by_text, key_views, lemma_stably_sorted, precedes, record_views, sort_keys,
    stable_order, stably_sorted, Replica, TextKey,
};
use crate::text::{
    decimal, forward_slashes, lemma_text_less_irreflexive, lemma_text_less_transitive,
    push_decimal, text_less, with_forward_slashes,
};
use vstd::prelude::*;
use vstd::string::StringExecFns;

verus! {

/// A file that was found below a chosen folder. `inside` is its path from the
/// folder on.
#[derive(Debug)]
pub struct FolderFile {
    pub source: usize,
    pub inside: String,
    pub size: u64,
}

/// What is found at a chosen path.
#[derive(Debug)]
pub enum Found {
    /// Nothing.
    Missing,
    /// Something that could not be read, and what was wrong.
    Unreadable { message: String },
    /// A file, and its name if that is text.
    File { source: usize, name: Option<String>, size: u64 },
    /// A folder, its name if it has one that is text, and the files in it.
    Folder { name: Option<String>, files: Vec<FolderFile> },
    /// Something else.
    Other,
}

/// A chosen path, as it is shown, and what is found there.
#[derive(Debug)]
pub struct SourcePath {
    pub shown: String,
    pub found: Found,
}

/// Why a chosen path cannot be sent.
pub open spec fn source_error(s: SourcePath) -> Option<Seq<char>> {
    match s.found {
        Found::Missing => Some("路径不存在: "@ + s.shown@),
        Found::Unreadable { message } => Some(message@),
        Found::File { source: _, name, size: _ } => match name {
            Some(_) => None,
            None => Some("无法读取文件名: "@ + s.shown@),
        },
        _ => None,
    }
}

/// The path of a file that is sent as part of a folder: the name of the
/// folder, then the path inside it, with slashes only.
pub open spec fn folder_path(root: Option<Seq<char>>, inside: Seq<char>) -> Seq<char> {
    let name = match root {
        Some(name) => name,
        None => "folder"@,
    };
    forward_slashes(name + "/"@ + inside)
}

/// The entry of a file that is sent as part of a folder.
pub open spec fn folder_entry(root: Option<Seq<char>>, f: FolderFile) -> LocalFileView {
    LocalFileView { source: f.source, relative_path: folder_path(root, f.inside@), size: f.size }
}

/// The entries of the files of a folder.
pub open spec fn folder_entries(root: Option<String>, files: Seq<FolderFile>) -> Seq<
    LocalFileView,
> {
    files.map_values(|f: FolderFile| folder_entry(crate::text::opt_text(root), f))
}

/// The files that are sent for a chosen path.
pub open spec fn source_files(s: SourcePath) -> Seq<LocalFileView> {
    match s.found {
        Found::File { source, name, size } => match name {
            Some(name) => seq![LocalFileView { source, relative_path: name@, size }],
            None => seq![],
        },
        Found::Folder { name, files } => folder_entries(name, files@),
        _ => seq![],
    }
}

/// The first error among the chosen paths.
pub open spec fn first_error(sources: Seq<SourcePath>) -> Option<Seq<char>>
    decreases sources.len(),
{
    if sources.len() == 0 {
        None
    } else if first_error(sources.drop_last()) is Some {
        first_error(sources.drop_last())
    } else {
        source_error(sources.last())
    }
}

/// The files that are sent for the chosen paths, path by path.
pub open spec fn all_files(sources: Seq<SourcePath>) -> Seq<LocalFileView>
    decreases sources.len(),
{
    if sources.len() == 0 {
        seq![]
    } else {
        all_files(sources.drop_last()) + source_files(sources.last())
    }
}

/// The order in which files are sent: by their paths.
pub open spec fn by_relative_path() -> spec_fn(LocalFileView, LocalFileView) -> bool {
    |a: LocalFileView, b: LocalFileView| text_less(a.relative_path, b.relative_path)
}

impl Replica for LocalFileEntry {
    fn replica(&self) -> (r: Self) {
        self.clone()
    }
}

/// The path under which a file of a folder is sent.
pub fn folder_relative_path(root: &Option<String>, inside: &str) -> (r: String)
    ensures
        r@ == folder_path(crate::text::opt_text(*root), inside@),
{
    let mut path = match root {
        Some(name) => name.clone(),
        None => "folder".to_owned(),
    };
    path.append("/");
    path.append(inside);
    with_forward_slashes(&path)
}

/// Adds the files of one chosen path.
fn add_source(entries: &mut Vec<LocalFileEntry>, source: &SourcePath) -> (r: Result<(), String>)
    ensures
        match source_error(*source) {
            Some(message) => r matches Err(e) && e@ == message,
            None => r is Ok && local_files(final(entries)@) == local_files(old(entries)@)
                + source_files(*source),
        },
{
    let ghost before = local_files(entries@);
    match &source.found {
        Found::Missing => {
            let mut message = "路径不存在: ".to_owned();
            message.append(&source.shown);
            return Err(message);
        },
        Found::Unreadable { message } => {
            return Err(message.clone());
        },
        Found::File { source: number, name, size } => match name {
            Some(name) => {
                let entry = LocalFileEntry {
                    source: *number,
                    relative_path: name.clone(),
                    size: *size,
                };
                entries.push(entry);
                assert(local_files(entries@) =~= before + source_files(*source));
            },
            None => {
                let mut message = "无法读取文件名: ".to_owned();
                message.append(&source.shown);
                return Err(message);
            },
        },
        Found::Folder { name, files } => {
            let ghost views = folder_entries(*name, files@);
            for i in 0..files.len()
                invariant
                    views == folder_entries(*name, files@),
                    local_files(entries@) == before + views.take(i as int),
            {
                let ghost so_far = entries@;
                let entry = LocalFileEntry {
                    source: files[i].source,
                    relative_path: folder_relative_path(name, &files[i].inside),
                    size: files[i].size,
                };
                entries.push(entry);
                assert(local_files(entries@) =~= local_files(so_far).push(entry@));
                assert(entry@ == views[i as int]);
                assert(local_files(entries@) =~= before + views.take(i + 1));
            }
            assert(views.take(files.len() as int) =~= views);
        },
        Found::Other => {
            assert(before + source_files(*source) =~= before);
        },
    }
    Ok(())
}

/// Collects the files of all chosen paths, sorted by the paths under which they
/// are sent. The first chosen path that cannot be sent is an error.
pub fn collect_files(sources: &Vec<SourcePath>) -> (r: Result<Vec<LocalFileEntry>, String>)
    ensures
        match first_error(sources@) {
            Some(message) => r matches Err(e) && e@ == message,
            None => r matches Ok(files) && stably_sorted(
                all_files(sources@),
                by_relative_path(),
                local_files(files@),
            ),
        },
{
    let mut entries: Vec<LocalFileEntry> = Vec::new();
    assert(local_files(entries@) =~= all_files(sources@.take(0)));
    for i in 0..sources.len()
        invariant
            first_error(sources@.take(i as int)) is None,
            local_files(entries@) == all_files(sources@.take(i as int)),
    {
        assert(sources@.take(i + 1).drop_last() =~= sources@.take(i as int));
        assert(sources@.take(i + 1).last() == sources[i as int]);
        match add_source(&mut entries, &sources[i]) {
            Ok(_) => {},
            Err(e) => {
                proof {
                    lemma_first_error_stays(sources@, i + 1);
                }
                return Err(e);
            },
        }
    }
    assert(sources@.take(sources.len() as int) =~= sources@);
    let mut keys: Vec<TextKey> = Vec::new();
    let ghost views = local_files(entries@);
    for i in 0..entries.len()
        invariant
            views == local_files(entries@),
            keys.len() == i,
            forall|k: int| 0 <= k < i ==> (#[trigger] keys[k])@ == views[k].relative_path,
    {
        keys.push(TextKey::new(&entries[i].relative_path));
    }
    let order = sort_keys(&keys);
    proof {
        let kv = key_views(keys@);
        assert(forall|k: int| 0 <= k < kv.len() ==> kv[k] == views[k].relative_path);
        assert forall|i: int, j: int| 0 <= i < j < order.len() implies precedes(
            views,
            by_relative_path(),
            #[trigger] order[i] as int,
            #[trigger] order[j] as int,
        ) by {
            assert(precedes(kv, by_text(), order[i] as int, order[j] as int));
        }
        assert(stable_order(views, by_relative_path(), order@));
        assert(record_views(entries@) =~= views);
    }
    let files = arrange(&entries, &order);
    assert(local_files(files@) =~= arranged(views, order@));
    Ok(files)
}

proof fn lemma_first_error_stays(sources: Seq<SourcePath>, n: int)
    requires
        0 <= n <= sources.len(),
        first_error(sources.take(n)) is Some,
    ensures
        first_error(sources) == first_error(sources.take(n)),
    decreases sources.len() - n,
{
    if n < sources.len() {
        assert(sources.take(n + 1).drop_last() =~= sources.take(n));
        lemma_first_error_stays(sources, n + 1);
    } else {
        assert(sources.take(n) =~= sources);
    }
}

/// The title of a transfer of `count` files, the first of which is `first`.
pub open spec fn titled(count: nat, first: Seq<char>, none: Seq<char>) -> Seq<char> {
    if count == 0 {
        none
    } else if count == 1 {
        first
    } else {
        first + " 等 "@ + decimal(count) + " 个文件"@
    }
}

/// Writes the title of a transfer of at least one file.
pub fn title_of(first: &str, count: usize) -> (r: String)
    requires
        count > 0,
    ensures
        r@ == titled(count as nat, first@, Seq::empty()),
{
    let mut title = first.to_owned();
    if count > 1 {
        title.append(" 等 ");
        push_decimal(&mut title, count as u128);
        title.append(" 个文件");
    }
    title
}

/// The title of a transfer that is sent.
pub fn transfer_title(files: &[LocalFileEntry]) -> (r: String)
    ensures
        r@ == titled(files@.len(), files@[0]@.relative_path, "空传输"@),
{
    if files.len() == 0 {
        return "空传输".to_owned();
    }
    title_of(&files[0].relative_path, files.len())
}

/// The title of a transfer that is received.
pub fn request_title(files: &[FileManifest]) -> (r: String)
    ensures
        r@ == titled(files@.len(), files@[0]@.relative_path, "未命名传输"@),
{
    if files.len() == 0 {
        return "未命名传输".to_owned();
    }
    title_of(&files[0].relative_path, files.len())
}

// ---------------------------------------------------------------------------
// What collecting is for
// ---------------------------------------------------------------------------

proof fn lemma_by_relative_path_asymmetric()
    ensures
        forall|a: LocalFileView, b: LocalFileView| #[trigger]
            by_relative_path()(a, b) ==> !by_relative_path()(b, a),
{
    assert forall|a: LocalFileView, b: LocalFileView| #[trigger]
        by_relative_path()(a, b) implies !by_relative_path()(b, a) by {
        if text_less(b.relative_path, a.relative_path) {
            lemma_text_less_transitive(a.relative_path, b.relative_path, a.relative_path);
            lemma_text_less_irreflexive(a.relative_path);
        }
    }
}

/// The files of a chosen path stand together in the list of all files, at some
/// place.
proof fn lemma_all_files_hold(sources: Seq<SourcePath>, i: int) -> (at: nat)
    requires
        0 <= i < sources.len(),
    ensures
        at + source_files(sources[i]).len() <= all_files(sources).len(),
        all_files(sources).subrange(
            at as int,
            (at + source_files(sources[i]).len()) as int,
        ) == source_files(sources[i]),
    decreases sources.len(),
{
    let front = sources.drop_last();
    let all = all_files(sources);
    if i == sources.len() - 1 {
        let at = all_files(front).len();
        assert(all.subrange(at as int, all.len() as int) =~= source_files(sources[i]));
        at
    } else {
        let at = lemma_all_files_hold(front, i);
        let own = source_files(sources[i]);
        assert(front[i] == sources[i]);
        assert(all.subrange(at as int, (at + own.len()) as int) =~= all_files(front).subrange(
            at as int,
            (at + own.len()) as int,
        ));
        at
    }
}

/// Where an element of the input is in the sorted output.
proof fn lemma_sorted_at(input: Seq<LocalFileView>, output: Seq<LocalFileView>, p: int) -> (k: int)
    requires
        stably_sorted(input, by_relative_path(), output),
        0 <= p < input.len(),
        input.len() <= usize::MAX,
    ensures
        0 <= k < output.len(),
        output[k] == input[p],
{
    lemma_by_relative_path_asymmetric();
    let order = lemma_stably_sorted(input, by_relative_path(), output);
    assert(order.contains(p as usize));
    let k = choose|k: int| 0 <= k < order.len() && order[k] == p as usize;
    assert(order[k] < input.len());
    k
}

/// Every file of every chosen folder is sent, however many there are: the
/// collected list has an entry with its source and its size, whose path is the
/// name of the folder, or `folder` where it has none, then a slash, then the
/// path inside the folder, with slashes for backslashes.
pub proof fn lemma_folder_files_are_sent(
    sources: Seq<SourcePath>,
    output: Seq<LocalFileView>,
    i: int,
    name: Option<String>,
    files: Vec<FolderFile>,
    j: int,
) -> (k: int)
    requires
        stably_sorted(all_files(sources), by_relative_path(), output),
        all_files(sources).len() <= usize::MAX,
        0 <= i < sources.len(),
        sources[i].found == (Found::Folder { name, files }),
        0 <= j < files.len(),
    ensures
        0 <= k < output.len(),
        output[k].source == files[j].source,
        output[k].size == files[j].size,
        ({
            let root = match name {
                Some(n) => n@,
                None => "folder"@,
            };
            let text = root + "/"@ + files[j].inside@;
            &&& output[k].relative_path.len() == text.len()
            &&& forall|c: int|
                0 <= c < text.len() ==> #[trigger] output[k].relative_path[c] == (if text[c]
                    == '\\' {
                    '/'
                } else {
                    text[c]
                })
        }),
{
    let own = source_files(sources[i]);
    let at = lemma_all_files_hold(sources, i);
    let all = all_files(sources);
    assert(own.len() == files.len());
    assert(own[j] == all[at + j]) by {
        assert(all.subrange(at as int, (at + own.len()) as int)[j] == all[at + j]);
    }
    lemma_sorted_at(all, output, at + j)
}

/// Every chosen file is sent under its own name.
pub proof fn lemma_chosen_files_are_sent(
    sources: Seq<SourcePath>,
    output: Seq<LocalFileView>,
    i: int,
    source: usize,
    name: String,
    size: u64,
) -> (k: int)
    requires
        stably_sorted(all_files(sources), by_relative_path(), output),
        all_files(sources).len() <= usize::MAX,
        0 <= i < sources.len(),
        sources[i].found == (Found::File { source, name: Some(name), size }),
    ensures
        0 <= k < output.len(),
        output[k].source == source,
        output[k].relative_path == name@,
        output[k].size == size,
{
    let at = lemma_all_files_hold(sources, i);
    let all = all_files(sources);
    assert(source_files(sources[i])[0] == all[at as int]) by {
        assert(all.subrange(at as int, at as int + 1)[0] == all[at as int]);
    }
    lemma_sorted_at(all, output, at as int)
}

/// How many files are sent for a chosen path: one for a file, all of a folder,
/// none for anything else.
pub open spec fn files_chosen(s: SourcePath) -> nat {
    match s.found {
        Found::File { name: Some(_), .. } => 1,
        Found::Folder { files, .. } => files@.len(),
        _ => 0,
    }
}

/// How many files are sent for the chosen paths.
pub open spec fn all_chosen(sources: Seq<SourcePath>) -> nat
    decreases sources.len(),
{
    if sources.len() == 0 {
        0
    } else {
        all_chosen(sources.drop_last()) + files_chosen(sources.last())
    }
}

/// Nothing else is sent: there are as many entries as files were chosen, in the
/// order of their paths.
pub proof fn lemma_nothing_else_is_sent(sources: Seq<SourcePath>, output: Seq<LocalFileView>)
    requires
        stably_sorted(all_files(sources), by_relative_path(), output),
    ensures
        output.len() == all_chosen(sources),
        forall|a: int, b: int|
            0 <= a < b < output.len() ==> !text_less(
                (#[trigger] output[b]).relative_path,
                (#[trigger] output[a]).relative_path,
            ),
{
    lemma_by_relative_path_asymmetric();
    let _ = lemma_stably_sorted(all_files(sources), by_relative_path(), output);
    lemma_all_files_count(sources);
    assert forall|a: int, b: int| 0 <= a < b < output.len() implies !text_less(
        (#[trigger] output[b]).relative_path,
        (#[trigger] output[a]).relative_path,
    ) by {
        assert(!by_relative_path()(output[b], output[a]));
    }
}

proof fn lemma_all_files_count(sources: Seq<SourcePath>)
    ensures
        all_files(sources).len() == all_chosen(sources),
    decreases sources.len(),
{
    if sources.len() > 0 {
        lemma_all_files_count(sources.drop_last());
    }
}

/// Why a chosen path cannot be sent: nothing is there, it cannot be read, or it
/// is a file without a name. Anything else can be sent.
pub proof fn lemma_source_errors(s: SourcePath)
    ensures
        s.found is Missing ==> source_error(s) == Some("路径不存在: "@ + s.shown@),
        s.found matches Found::Unreadable { message } ==> source_error(s) == Some(message@),
        s.found matches Found::File { name: None, .. } ==> source_error(s) == Some(
            "无法读取文件名: "@ + s.shown@,
        ),
        s.found matches Found::File { name: Some(_), .. } ==> source_error(s) is None,
        s.found is Folder ==> source_error(s) is None,
        s.found is Other ==> source_error(s) is None,
{
}

/// The error is that of the first chosen path that has one, and there is none
/// exactly where no chosen path has one.
pub proof fn lemma_first_error(sources: Seq<SourcePath>, i: int)
    requires
        forall|j: int| 0 <= j < i ==> source_error(#[trigger] sources[j]) is None,
        0 <= i <= sources.len(),
        i < sources.len() ==> source_error(sources[i]) is Some,
    ensures
        i < sources.len() ==> first_error(sources) == source_error(sources[i]),
        i == sources.len() ==> first_error(sources) is None,
    decreases sources.len(),
{
    if sources.len() > 0 {
        let front = sources.drop_last();
        assert forall|j: int| 0 <= j < i && j < front.len() implies source_error(
            #[trigger] front[j],
        ) is None by {
            assert(front[j] == sources[j]);
        }
        if i < front.len() {
            assert(front[i] == sources[i]);
            lemma_first_error(front, i);
        } else {
            lemma_first_error(front, front.len() as int);
            if i == sources.len() {
                assert(source_error(sources[sources.len() - 1]) is None);
            }
        }
    }
}

/// What a transfer is called: by its only file, or by its first and how many
/// there are.
pub proof fn lemma_titles(count: nat, first: Seq<char>, none: Seq<char>)
    ensures
        titled(0, first, none) == none,
        titled(1, first, none) == first,
        count > 1 ==> titled(count, first, none) == first + " 等 "@ + decimal(count) + " 个文件"@,
{
}

/// Files that are sent under the same path stay in the order in which they were
/// chosen. The result says from which position each entry comes.
pub proof fn lemma_same_paths_stay_in_order(
    sources: Seq<SourcePath>,
    output: Seq<LocalFileView>,
) -> (order: Seq<usize>)
    requires
        stably_sorted(all_files(sources), by_relative_path(), output),
    ensures
        order.len() == output.len(),
        forall|a: int|
            0 <= a < output.len() ==> #[trigger] order[a] < all_files(sources).len() && output[a]
                == all_files(sources)[order[a] as int],
        forall|a: int, b: int|
            0 <= a < b < output.len() && output[a].relative_path == output[b].relative_path
                ==> #[trigger] order[a] < #[trigger] order[b],
{
    lemma_by_relative_path_asymmetric();
    let order = lemma_stably_sorted(all_files(sources), by_relative_path(), output);
    assert forall|a: int, b: int|
        0 <= a < b < output.len() && output[a].relative_path == output[b].relative_path implies
        #[trigger] order[a] < #[trigger] order[b] by {
        lemma_text_less_irreflexive(output[a].relative_path);
        assert(!by_relative_path()(output[a], output[b]));
        assert(!by_relative_path()(output[b], output[a]));
    }
    order
}

/// The files of a path that is chosen after others come after theirs, those of a
/// folder in the order in which they were found.
pub proof fn lemma_files_in_the_order_of_choice(sources: Seq<SourcePath>, s: SourcePath)
    ensures
        all_files(Seq::empty()) == Seq::<LocalFileView>::empty(),
        all_files(sources.push(s)) == all_files(sources) + source_files(s),
        source_files(s).len() == files_chosen(s),
        s.found matches Found::Folder { files, .. } ==> forall|j: int|
            0 <= j < files.len() ==> (#[trigger] source_files(s)[j]).source == files[j].source
                && source_files(s)[j].size == files[j].size,
{
    assert(sources.push(s).drop_last() =~= sources);
}

} // verus!
