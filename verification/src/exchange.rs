//! What sender and receiver make of a transfer together: the bytes that the one
//! sends are the bytes that the other expects, and the files arrive as they
//! were.

use crate::collect::{
    all_files, by_relative_path, folder_path, lemma_folder_files_are_sent, FolderFile, Found,
    SourcePath,
};
use crate::model::LocalFileView;
use crate::order::stably_sorted;
use crate::paths::{
    joined, kept_part, lemma_joined_front, lemma_joined_has_no_backslash,
    lemma_kept_parts_are_kept, lemma_sanitize_preserves_folders, normal_part, sanitized,
    slash_free, InboxPathView, Platform,
};
use crate::receive::{
    drained, lemma_drained_frame, plan_offsets, PlanView, ReceiveAction, ReceiveView,
};
use crate::resume::{
    file_sizes, lemma_normalized_same, manifest_sizes, outstanding, outstanding_from,
};
use crate::send::{lemma_next_needed, manifest_of, manifests_of, SendView};
use crate::text::forward_slashes;
use vstd::prelude::*;

verus! {

/// The bytes that are sent from the current file on: of each file of which
/// something is to be sent, what follows its offset.
pub open spec fn stream_of(v: SendView, contents: Seq<Seq<u8>>) -> Seq<u8>
    decreases v.files.len() - v.index,
{
    let i = v.next_needed(v.index);
    if v.index >= v.files.len() || i >= v.files.len() || i < v.index {
        Seq::empty()
    } else {
        contents[i as int].skip(v.offsets[i as int] as int) + stream_of(
            SendView { index: i + 1, ..v },
            contents,
        )
    }
}

/// The bytes of the current file that come with the next `n` chunks.
pub open spec fn chunks_read(v: ReceiveView, stream: Seq<u8>, n: nat) -> Seq<u8>
    decreases n,
{
    if n == 0 || v.remaining == 0 {
        Seq::empty()
    } else {
        stream.take(v.chunk() as int) + chunks_read(
            v.with_chunk(),
            stream.skip(v.chunk() as int),
            (n - 1) as nat,
        )
    }
}

/// What the unfinished part of the current file holds after the next `n`
/// chunks, where it held `part` before.
pub open spec fn part_after(v: ReceiveView, part: Seq<u8>, stream: Seq<u8>, n: nat) -> Seq<u8> {
    let kept = if v.plan[v.index as int].offset > 0 {
        part
    } else {
        Seq::empty()
    };
    kept + chunks_read(v.opened(), stream, n)
}

/// What a file holds; nothing if there is none.
pub open spec fn held_at(disk: Map<InboxPathView, Seq<u8>>, path: InboxPathView) -> Seq<u8> {
    if disk.contains_key(path) {
        disk[path]
    } else {
        Seq::empty()
    }
}

/// The files on disk after all files from the current one on are through. Each
/// file that is not found in place is read in chunks, at the end of its
/// unfinished part or anew, and then gets its final name.
pub open spec fn disk_after(
    v: ReceiveView,
    saved: spec_fn(nat) -> Seq<char>,
    disk: Map<InboxPathView, Seq<u8>>,
    stream: Seq<u8>,
) -> Map<InboxPathView, Seq<u8>>
    decreases v.files.len() - v.index,
{
    let plan = v.plan[v.index as int];
    if v.index >= v.files.len() {
        disk
    } else if v.skips(disk.contains_key(plan.final_path)) {
        disk_after(v.past_file(saved(v.index)), saved, disk, stream)
    } else {
        let open = v.opened();
        let part = held_at(disk, plan.temp_path);
        proof {
            lemma_drained_frame(open);
        }
        disk_after(
            drained(open).past_file(saved(v.index)),
            saved,
            disk.remove(plan.temp_path).insert(
                plan.final_path,
                part_after(v, part, stream, open.remaining as nat),
            ),
            stream.skip(open.remaining as int),
        )
    }
}

/// Whether the contents of each file are as long as the file is said to be.
pub open spec fn of_these_sizes(contents: Seq<Seq<u8>>, files: Seq<LocalFileView>) -> bool {
    contents.len() == files.len() && forall|i: int|
        0 <= i < files.len() ==> (#[trigger] contents[i]).len() == files[i].size
}

/// Whether a file is found in place.
pub open spec fn in_place(
    plan: PlanView,
    size: u64,
    disk: Map<InboxPathView, Seq<u8>>,
) -> bool {
    plan.offset >= size && disk.contains_key(plan.final_path)
}

/// Whether, from a file on, no plan skips past the end, and each unfinished part
/// on which a plan builds is the beginning of its file, up to the offset.
pub open spec fn sound_parts(
    plan: Seq<PlanView>,
    disk: Map<InboxPathView, Seq<u8>>,
    files: Seq<LocalFileView>,
    contents: Seq<Seq<u8>>,
    from: nat,
) -> bool {
    forall|i: int|
        from <= i < plan.len() ==> {
            &&& (#[trigger] plan[i]).offset <= files[i].size
            &&& plan[i].offset > 0 && !in_place(plan[i], files[i].size, disk) ==> held_at(
                disk,
                plan[i].temp_path,
            ) == contents[i].take(plan[i].offset as int)
        }
}

/// Whether no two of the final and temporary paths of a transfer are the same.
pub open spec fn paths_differ(plan: Seq<PlanView>) -> bool {
    &&& forall|i: int, j: int|
        0 <= i < plan.len() && 0 <= j < plan.len() ==> (#[trigger] plan[i]).final_path != (
        #[trigger] plan[j]).temp_path
    &&& forall|i: int, j: int|
        0 <= i < j < plan.len() ==> {
            &&& (#[trigger] plan[i]).final_path != (#[trigger] plan[j]).final_path
            &&& plan[i].temp_path != plan[j].temp_path
        }
}

/// Whether a path is one at which something is written, from a file on: a final
/// or temporary path of a file that is not found in place.
pub open spec fn written_at(
    plan: Seq<PlanView>,
    disk: Map<InboxPathView, Seq<u8>>,
    files: Seq<LocalFileView>,
    from: nat,
    path: InboxPathView,
) -> bool {
    exists|i: int|
        from <= i < plan.len() && !in_place(#[trigger] plan[i], files[i].size, disk) && (path
            == plan[i].final_path || path == plan[i].temp_path)
}

/// Whether there is the same at a path, or nothing on either disk.
pub open spec fn same_at(
    a: Map<InboxPathView, Seq<u8>>,
    b: Map<InboxPathView, Seq<u8>>,
    path: InboxPathView,
) -> bool {
    a.contains_key(path) == b.contains_key(path) && (a.contains_key(path) ==> a[path] == b[path])
}

/// The bytes that come with `n` chunks are the first of the stream, and all that
/// is outstanding once there were enough chunks.
proof fn lemma_chunks_read(v: ReceiveView, stream: Seq<u8>, n: nat)
    requires
        v.remaining <= stream.len(),
    ensures
        chunks_read(v, stream, n).len() <= v.remaining,
        chunks_read(v, stream, n) == stream.take(chunks_read(v, stream, n).len() as int),
        n >= v.remaining ==> chunks_read(v, stream, n).len() == v.remaining,
    decreases n,
{
    if n > 0 && v.remaining > 0 {
        let c = v.chunk() as int;
        let rest = stream.skip(c);
        lemma_chunks_read(v.with_chunk(), rest, (n - 1) as nat);
        let later = chunks_read(v.with_chunk(), rest, (n - 1) as nat);
        assert(stream.take(c) + later =~= stream.take(c + later.len()));
    }
}

/// What the sender sends from a file on begins with what is outstanding of that
/// file.
proof fn lemma_stream_step(v: SendView, contents: Seq<Seq<u8>>)
    requires
        v.wf(),
        v.index < v.files.len(),
        of_these_sizes(contents, v.files),
        v.offsets[v.index as int] <= contents[v.index as int].len(),
    ensures
        stream_of(v, contents) == contents[v.index as int].skip(v.offsets[v.index as int] as int)
            + stream_of(SendView { index: v.index + 1, ..v }, contents),
{
    let i = v.index as int;
    let next = SendView { index: v.index + 1, ..v };
    assert(contents[i].len() == v.files[i].size);
    if v.needs(i) {
        assert(v.next_needed(v.index) == v.index);
    } else {
        assert(contents[i].skip(v.offsets[i] as int) =~= Seq::<u8>::empty());
        assert(v.next_needed(v.index) == v.next_needed(v.index + 1));
        lemma_next_needed_same(v, next, v.index + 1);
        lemma_next_needed(v, v.index + 1);
        if v.index + 1 < v.files.len() && v.next_needed(v.index + 1) < v.files.len() {
            let k = v.next_needed(v.index + 1);
            assert(SendView { index: k + 1, ..v } == SendView { index: k + 1, ..next });
        }
        assert(stream_of(v, contents) == stream_of(next, contents));
        assert(Seq::<u8>::empty() + stream_of(next, contents) =~= stream_of(next, contents));
    }
}

proof fn lemma_next_needed_same(v: SendView, w: SendView, i: nat)
    requires
        v.files == w.files,
        v.offsets == w.offsets,
    ensures
        v.next_needed(i) == w.next_needed(i),
    decreases v.files.len() - i,
{
    if i < v.files.len() && !v.needs(i as int) {
        lemma_next_needed_same(v, w, i + 1);
    }
}

/// As many bytes are sent from a file on as are outstanding.
proof fn lemma_stream_len(v: SendView, contents: Seq<Seq<u8>>)
    requires
        v.wf(),
        of_these_sizes(contents, v.files),
        forall|i: int|
            0 <= i < v.files.len() ==> (#[trigger] v.offsets[i]) <= v.files[i].size,
    ensures
        stream_of(v, contents).len() == outstanding_from(v.offsets, file_sizes(v.files), v.index),
    decreases v.files.len() - v.index,
{
    if v.index < v.files.len() {
        let i = v.index as int;
        assert(v.offsets[i] <= v.files[i].size);
        assert(contents[i].len() == v.files[i].size);
        assert(file_sizes(v.files)[i] == v.files[i].size);
        lemma_stream_step(v, contents);
        lemma_stream_len(SendView { index: v.index + 1, ..v }, contents);
    }
}

/// The receiver takes what is outstanding of the current file from the stream,
/// which makes the file whole, and leaves what is sent of the files after it.
proof fn lemma_file_is_read(s: SendView, v: ReceiveView, contents: Seq<Seq<u8>>, part: Seq<u8>)
    requires
        s.wf(),
        v.wf(),
        s.index == v.index,
        s.index < s.files.len(),
        v.files == manifests_of(s.files),
        s.offsets == plan_offsets(v.plan),
        of_these_sizes(contents, s.files),
        v.plan[v.index as int].offset <= s.files[v.index as int].size,
    ensures
        ({
            let i = v.index as int;
            let offset = v.plan[i].offset;
            let stream = stream_of(s, contents);
            let rest = stream_of(SendView { index: s.index + 1, ..s }, contents);
            let size = v.opened().remaining;
            &&& stream.skip(size as int) == rest
            &&& offset >= s.files[i].size ==> stream == rest
            &&& offset == 0 || part == contents[i].take(offset as int) ==> part_after(
                v,
                part,
                stream,
                size as nat,
            ) == contents[i]
        }),
{
    let i = v.index as int;
    let offset = v.plan[i].offset as int;
    let stream = stream_of(s, contents);
    assert(v.files[i] == manifest_of(s.files[i]));
    assert(s.offsets[i] == offset);
    assert(contents[i].len() == s.files[i].size);
    lemma_stream_step(s, contents);
    let tail = contents[i].skip(offset);
    let rest = stream_of(SendView { index: s.index + 1, ..s }, contents);
    let open = v.opened();
    assert(open.remaining == tail.len());
    assert(stream.skip(tail.len() as int) =~= rest);
    assert(stream.take(tail.len() as int) =~= tail);
    if tail.len() == 0 {
        assert(stream =~= rest);
    }
    lemma_chunks_read(open, stream, open.remaining as nat);
    assert(contents[i].take(offset) + tail =~= contents[i]);
    assert(offset == 0 ==> Seq::<u8>::empty() + tail =~= contents[i]);
}

/// What is on disk once all files from the current one on are through.
proof fn lemma_disk_from(
    s: SendView,
    v: ReceiveView,
    contents: Seq<Seq<u8>>,
    saved: spec_fn(nat) -> Seq<char>,
    disk: Map<InboxPathView, Seq<u8>>,
)
    requires
        s.wf(),
        v.wf(),
        s.index == v.index,
        v.files == manifests_of(s.files),
        s.offsets == plan_offsets(v.plan),
        of_these_sizes(contents, s.files),
        paths_differ(v.plan),
        sound_parts(v.plan, disk, s.files, contents, v.index),
    ensures
        ({
            let end = disk_after(v, saved, disk, stream_of(s, contents));
            &&& forall|i: int|
                v.index <= i < v.plan.len() && !in_place(
                    #[trigger] v.plan[i],
                    s.files[i].size,
                    disk,
                ) ==> {
                    &&& end.contains_key(v.plan[i].final_path)
                    &&& end[v.plan[i].final_path] == contents[i]
                    &&& !end.contains_key(v.plan[i].temp_path)
                }
            &&& forall|p: InboxPathView|
                !written_at(v.plan, disk, s.files, v.index, p) ==> #[trigger] same_at(end, disk, p)
        }),
    decreases s.files.len() - s.index,
{
    if s.index < s.files.len() {
        let i = s.index as int;
        let plan = v.plan[i];
        let stream = stream_of(s, contents);
        let t = SendView { index: s.index + 1, ..s };
        let rest = stream_of(t, contents);
        let part = held_at(disk, plan.temp_path);
        let end = disk_after(v, saved, disk, stream);
        assert(v.files[i] == manifest_of(s.files[i]));
        lemma_file_is_read(s, v, contents, part);
        if in_place(plan, s.files[i].size, disk) {
            lemma_disk_from(t, v.past_file(saved(v.index)), contents, saved, disk);
            assert forall|p: InboxPathView|
                !written_at(v.plan, disk, s.files, v.index, p) implies #[trigger] same_at(
                end,
                disk,
                p,
            ) by {
                assert(!written_at(v.plan, disk, s.files, v.index + 1, p));
            }
        } else {
            lemma_drained_frame(v.opened());
            let w = drained(v.opened()).past_file(saved(v.index));
            let next = disk.remove(plan.temp_path).insert(plan.final_path, contents[i]);
            assert forall|k: int| v.index < k < v.plan.len() implies in_place(
                #[trigger] v.plan[k],
                s.files[k].size,
                next,
            ) == in_place(v.plan[k], s.files[k].size, disk) && held_at(next, v.plan[k].temp_path)
                == held_at(disk, v.plan[k].temp_path) by {
                assert(v.plan[i].final_path != v.plan[k].final_path);
                assert(v.plan[k].final_path != v.plan[i].temp_path);
                assert(v.plan[i].final_path != v.plan[k].temp_path);
            }
            lemma_disk_from(t, w, contents, saved, next);
            assert(end == disk_after(w, saved, next, rest));
            assert forall|p: InboxPathView|
                p == plan.final_path || p == plan.temp_path || !written_at(
                    v.plan,
                    disk,
                    s.files,
                    v.index,
                    p,
                ) implies #[trigger] same_at(end, next, p) by {
                if written_at(v.plan, next, s.files, v.index + 1, p) {
                    let k = choose|k: int|
                        v.index + 1 <= k < v.plan.len() && !in_place(
                            #[trigger] v.plan[k],
                            s.files[k].size,
                            next,
                        ) && (p == v.plan[k].final_path || p == v.plan[k].temp_path);
                    assert(!in_place(v.plan[k], s.files[k].size, disk));
                    assert(v.plan[i].final_path != v.plan[k].final_path);
                    assert(v.plan[k].final_path != v.plan[i].temp_path);
                    assert(v.plan[i].final_path != v.plan[k].temp_path);
                    assert(v.plan[i].temp_path != v.plan[k].temp_path);
                }
            }
            assert(v.plan[i].final_path != v.plan[i].temp_path);
            assert(same_at(end, next, plan.final_path));
            assert(same_at(end, next, plan.temp_path));
            assert forall|p: InboxPathView|
                !written_at(v.plan, disk, s.files, v.index, p) implies #[trigger] same_at(
                end,
                disk,
                p,
            ) by {
                assert(same_at(end, next, p));
                assert(!in_place(v.plan[i], s.files[i].size, disk));
            }
        }
    }
}

/// Files arrive as they were sent. The receiver answers with the offsets of its
/// plan, the sender sends every file from its offset to its end, and the
/// receiver reads chunk by chunk. Where the final and temporary paths of the
/// plan are all different, every file then stands at its final path with the
/// contents that the sender has, resumed ones included, and no unfinished part
/// of it is left. A file that was found in place, and whatever stands at any
/// other path, is as before.
pub proof fn lemma_files_arrive(
    files: Seq<LocalFileView>,
    contents: Seq<Seq<u8>>,
    plan: Seq<PlanView>,
    disk: Map<InboxPathView, Seq<u8>>,
    total_bytes: u64,
    saved: spec_fn(nat) -> Seq<char>,
)
    requires
        of_these_sizes(contents, files),
        plan.len() == files.len(),
        paths_differ(plan),
        sound_parts(plan, disk, files, contents, 0),
    ensures
        ({
            let stream = stream_of(
                SendView::started(files, total_bytes, plan_offsets(plan)),
                contents,
            );
            let receiver = ReceiveView::started(manifests_of(files), plan, total_bytes);
            let end = disk_after(receiver, saved, disk, stream);
            &&& forall|i: int|
                0 <= i < plan.len() && !in_place(#[trigger] plan[i], files[i].size, disk) ==> {
                    &&& end.contains_key(plan[i].final_path)
                    &&& end[plan[i].final_path] == contents[i]
                    &&& !end.contains_key(plan[i].temp_path)
                }
            &&& forall|i: int|
                0 <= i < plan.len() && in_place(#[trigger] plan[i], files[i].size, disk)
                    ==> same_at(end, disk, plan[i].final_path)
            &&& forall|p: InboxPathView|
                !written_at(plan, disk, files, 0, p) ==> #[trigger] same_at(end, disk, p)
        }),
{
    let offsets = plan_offsets(plan);
    lemma_normalized_same(offsets);
    lemma_disk_from(
        SendView::started(files, total_bytes, offsets),
        ReceiveView::started(manifests_of(files), plan, total_bytes),
        contents,
        saved,
        disk,
    );
    assert forall|i: int|
        0 <= i < plan.len() && in_place(#[trigger] plan[i], files[i].size, disk) implies !written_at(
        plan,
        disk,
        files,
        0,
        plan[i].final_path,
    ) by {
        assert forall|k: int| 0 <= k < plan.len() && !in_place(
            #[trigger] plan[k],
            files[k].size,
            disk,
        ) implies plan[i].final_path != plan[k].final_path && plan[i].final_path
            != plan[k].temp_path by {
            if i < k {
                assert(plan[i].final_path != plan[k].final_path);
            } else if k < i {
                assert(plan[k].final_path != plan[i].final_path);
            }
        }
    }
}

/// The receiver expects exactly as many bytes as the sender sends.
pub proof fn lemma_streams_agree(
    files: Seq<LocalFileView>,
    total_bytes: u64,
    contents: Seq<Seq<u8>>,
    plan: Seq<PlanView>,
)
    requires
        of_these_sizes(contents, files),
        plan.len() == files.len(),
        forall|i: int| 0 <= i < plan.len() ==> (#[trigger] plan[i]).offset <= files[i].size,
    ensures
        stream_of(SendView::started(files, total_bytes, plan_offsets(plan)), contents).len()
            == outstanding_from(plan_offsets(plan), manifest_sizes(manifests_of(files)), 0),
{
    let offsets = plan_offsets(plan);
    lemma_normalized_same(offsets);
    let v = SendView::started(files, total_bytes, offsets);
    assert forall|i: int| 0 <= i < v.files.len() implies (#[trigger] v.offsets[i])
        <= v.files[i].size by {
        assert(v.offsets[i] == plan[i].offset);
    }
    assert(manifest_sizes(manifests_of(files)) =~= file_sizes(files));
    lemma_stream_len(v, contents);
}

/// Wherever a transfer is interrupted, the unfinished part of the current file
/// is a beginning of that file, so that the next attempt can build on it.
pub proof fn lemma_interrupted_part_is_sound(
    v: ReceiveView,
    part: Seq<u8>,
    content: Seq<u8>,
    rest: Seq<u8>,
    n: nat,
)
    requires
        v.wf(),
        v.index < v.files.len(),
        content.len() == v.files[v.index as int].size,
        v.plan[v.index as int].offset <= content.len(),
        v.plan[v.index as int].offset > 0 ==> part == content.take(
            v.plan[v.index as int].offset as int,
        ),
    ensures
        ({
            let offset = v.plan[v.index as int].offset;
            let got = part_after(v, part, content.skip(offset as int) + rest, n);
            &&& offset <= got.len() <= content.len()
            &&& got == content.take(got.len() as int)
        }),
{
    let offset = v.plan[v.index as int].offset as int;
    let tail = content.skip(offset);
    let stream = tail + rest;
    lemma_chunks_read(v.opened(), stream, n);
    let read = chunks_read(v.opened(), stream, n);
    assert(read =~= tail.take(read.len() as int));
    let got = part_after(v, part, stream, n);
    if offset > 0 {
        assert(got =~= content.take(offset + read.len()));
    } else {
        assert(got =~= content.take(read.len() as int));
    }
}

/// Folder structure is preserved: a file that is sent as part of a folder is
/// received below a folder of the same name, in the same folders.
pub proof fn lemma_folders_are_preserved(
    root: Seq<char>,
    inside: Seq<char>,
    parts: Seq<Seq<char>>,
    platform: Platform,
)
    requires
        parts.len() > 0,
        forward_slashes(inside) == joined(parts),
        normal_part(platform, root) && slash_free(root),
        forall|i: int|
            0 <= i < parts.len() ==> normal_part(platform, #[trigger] parts[i]) && slash_free(
                parts[i],
            ),
    ensures
        sanitized(folder_path(Some(root), inside), platform) == seq![root] + parts,
{
    reveal_strlit("/");
    let all = seq![root] + parts;
    assert forall|i: int| 0 <= i < all.len() implies normal_part(platform, #[trigger] all[i])
        && slash_free(all[i]) by {
        if i > 0 {
            assert(all[i] == parts[i - 1]);
        }
    }
    lemma_joined_front(root, parts);
    lemma_sanitize_preserves_folders(all, platform);
    let sent = folder_path(Some(root), inside);
    assert(sent =~= root + seq!['/'] + forward_slashes(inside));
    assert(forward_slashes(sent) =~= sent);
}

// ---------------------------------------------------------------------------
// The run of the receiver, action by action
// ---------------------------------------------------------------------------

/// What a receiver comes to that does, action by action, what it is to do next,
/// on the files of a disk and with the bytes of a stream: it looks whether the
/// final path is taken, opens the unfinished part to go on or anew, appends what
/// it takes from the stream, and renames the part to the final path.
pub open spec fn run(
    v: ReceiveView,
    saved: spec_fn(nat) -> Seq<char>,
    disk: Map<InboxPathView, Seq<u8>>,
    stream: Seq<u8>,
) -> (ReceiveView, Map<InboxPathView, Seq<u8>>)
    decreases
            v.files.len() - v.index,
            if v.phase is Looking {
                2int
            } else if v.phase is Opening {
                1int
            } else {
                0int
            },
            v.remaining,
{
    let plan = v.plan[v.index as int];
    if v.index >= v.files.len() {
        (v, disk)
    } else {
        match v.action() {
            ReceiveAction::LookUp => run(
                v.looked_up(disk.contains_key(plan.final_path), saved(v.index)),
                saved,
                disk,
                stream,
            ),
            ReceiveAction::Open { append } => run(
                v.opened(),
                saved,
                disk.insert(
                    plan.temp_path,
                    if append {
                        held_at(disk, plan.temp_path)
                    } else {
                        Seq::empty()
                    },
                ),
                stream,
            ),
            ReceiveAction::Read { size } => run(
                v.with_chunk(),
                saved,
                disk.insert(
                    plan.temp_path,
                    held_at(disk, plan.temp_path) + stream.take(size as int),
                ),
                stream.skip(size as int),
            ),
            ReceiveAction::Save => run(
                v.past_file(saved(v.index)),
                saved,
                disk.remove(plan.temp_path).insert(
                    plan.final_path,
                    held_at(disk, plan.temp_path),
                ),
                stream,
            ),
            ReceiveAction::Finish => (v, disk),
        }
    }
}

/// Reading the current file to its end and saving it, chunk by chunk.
proof fn lemma_run_reads(
    v: ReceiveView,
    saved: spec_fn(nat) -> Seq<char>,
    disk: Map<InboxPathView, Seq<u8>>,
    stream: Seq<u8>,
)
    requires
        v.wf(),
        v.index < v.files.len(),
        v.phase is Reading,
        v.remaining <= stream.len(),
        disk.contains_key(v.plan[v.index as int].temp_path),
    ensures
        ({
            let plan = v.plan[v.index as int];
            let got = disk[plan.temp_path] + stream.take(v.remaining as int);
            run(v, saved, disk, stream) == run(
                drained(v).past_file(saved(v.index)),
                saved,
                disk.remove(plan.temp_path).insert(plan.final_path, got),
                stream.skip(v.remaining as int),
            )
        }),
    decreases v.remaining,
{
    let plan = v.plan[v.index as int];
    if v.remaining > 0 {
        let c = v.chunk() as int;
        let next = disk.insert(plan.temp_path, disk[plan.temp_path] + stream.take(c));
        let rest = stream.skip(c);
        lemma_run_reads(v.with_chunk(), saved, next, rest);
        let left = v.remaining - c;
        assert(next.remove(plan.temp_path) =~= disk.remove(plan.temp_path));
        assert(next[plan.temp_path] + rest.take(left) =~= disk[plan.temp_path] + stream.take(
            v.remaining as int,
        ));
        assert(rest.skip(left) =~= stream.skip(v.remaining as int));
    } else {
        assert(disk[plan.temp_path] + stream.take(0) =~= disk[plan.temp_path]);
        assert(stream.skip(0) =~= stream);
    }
}

/// The run of the receiver is the one that ends with the files in their places.
proof fn lemma_run_from(
    s: SendView,
    v: ReceiveView,
    contents: Seq<Seq<u8>>,
    saved: spec_fn(nat) -> Seq<char>,
    disk: Map<InboxPathView, Seq<u8>>,
)
    requires
        s.wf(),
        v.wf(),
        v.phase is Looking,
        s.index == v.index,
        v.files == manifests_of(s.files),
        s.offsets == plan_offsets(v.plan),
        of_these_sizes(contents, s.files),
        forall|i: int| 0 <= i < v.plan.len() ==> (#[trigger] v.plan[i]).offset <= s.files[i].size,
    ensures
        ({
            let stream = stream_of(s, contents);
            let (end, files) = run(v, saved, disk, stream);
            &&& files == disk_after(v, saved, disk, stream)
            &&& end.index == end.files.len()
            &&& end.action() is Finish
            &&& end.files == v.files
            &&& end.total_bytes == v.total_bytes
            &&& end.first_saved == (if v.first_saved is None && v.index < v.files.len() {
                Some(saved(v.index))
            } else {
                v.first_saved
            })
        }),
    decreases s.files.len() - s.index,
{
    if s.index < s.files.len() {
        let i = s.index as int;
        let plan = v.plan[i];
        let stream = stream_of(s, contents);
        let t = SendView { index: s.index + 1, ..s };
        let part = held_at(disk, plan.temp_path);
        assert(v.files[i] == manifest_of(s.files[i]));
        assert(s.offsets[i] == plan.offset);
        lemma_file_is_read(s, v, contents, part);
        let exists = disk.contains_key(plan.final_path);
        assert(v.action() is LookUp);
        if plan.offset >= s.files[i].size && exists {
            assert(v.looked_up(exists, saved(v.index)) == v.past_file(saved(v.index)));
            lemma_run_from(t, v.past_file(saved(v.index)), contents, saved, disk);
        } else {
            let waiting = v.looked_up(exists, saved(v.index));
            assert(waiting.action() == (ReceiveAction::Open { append: plan.offset > 0 }));
            let open = v.opened();
            assert(waiting.opened() == open);
            lemma_drained_frame(open);
            let kept = if plan.offset > 0 {
                part
            } else {
                Seq::empty()
            };
            let opened = disk.insert(plan.temp_path, kept);
            assert(contents[i].len() == s.files[i].size);
            lemma_stream_step(s, contents);
            assert(open.remaining <= stream.len());
            assert(run(v, saved, disk, stream) == run(waiting, saved, disk, stream));
            assert(run(waiting, saved, disk, stream) == run(open, saved, opened, stream));
            lemma_run_reads(open, saved, opened, stream);
            lemma_chunks_read(open, stream, open.remaining as nat);
            let got = part_after(v, part, stream, open.remaining as nat);
            assert(got == kept + stream.take(open.remaining as int));
            let next = disk.remove(plan.temp_path).insert(plan.final_path, got);
            assert(opened.remove(plan.temp_path) =~= disk.remove(plan.temp_path));
            lemma_run_from(t, drained(open).past_file(saved(v.index)), contents, saved, next);
        }
    }
}

/// Files arrive as they were sent, by the actions of the receiver: one that
/// looks, opens, reads and saves as it is told comes to the end, and then every
/// file that was to be received stands at its final path with the contents that
/// the sender has, with no unfinished part left. A file of which nothing was
/// needed and that was there before is not touched, whatever it held and
/// however many files there are, and neither is anything at any other path. The
/// user is shown where the first file is.
pub proof fn lemma_actions_make_files_arrive(
    files: Seq<LocalFileView>,
    contents: Seq<Seq<u8>>,
    plan: Seq<PlanView>,
    disk: Map<InboxPathView, Seq<u8>>,
    total_bytes: u64,
    saved: spec_fn(nat) -> Seq<char>,
)
    requires
        of_these_sizes(contents, files),
        plan.len() == files.len(),
        paths_differ(plan),
        forall|i: int|
            0 <= i < plan.len() ==> {
                &&& (#[trigger] plan[i]).offset <= files[i].size
                &&& plan[i].offset > 0 && !(plan[i].offset >= files[i].size && disk.contains_key(
                    plan[i].final_path,
                )) ==> held_at(disk, plan[i].temp_path) == contents[i].take(plan[i].offset as int)
            },
    ensures
        ({
            let stream = stream_of(
                SendView::started(files, total_bytes, plan_offsets(plan)),
                contents,
            );
            let start = ReceiveView::started(manifests_of(files), plan, total_bytes);
            let (end, after) = run(start, saved, disk, stream);
            &&& end.action() is Finish
            &&& end.index == files.len()
            &&& files.len() > 0 ==> end.first_saved == Some(saved(0))
            &&& forall|i: int|
                #![trigger plan[i]]
                0 <= i < plan.len() && !(plan[i].offset >= files[i].size && disk.contains_key(
                    plan[i].final_path,
                )) ==> {
                    &&& after.contains_key(plan[i].final_path)
                    &&& after[plan[i].final_path] == contents[i]
                    &&& !after.contains_key(plan[i].temp_path)
                }
            &&& forall|i: int|
                #![trigger plan[i]]
                0 <= i < plan.len() && plan[i].offset >= files[i].size && disk.contains_key(
                    plan[i].final_path,
                ) ==> {
                    &&& after.contains_key(plan[i].final_path)
                    &&& after[plan[i].final_path] == disk[plan[i].final_path]
                }
            &&& forall|p: InboxPathView|
                (forall|i: int|
                    0 <= i < plan.len() ==> (#[trigger] plan[i]).final_path != p
                        && plan[i].temp_path != p) ==> {
                    &&& #[trigger] after.contains_key(p) == disk.contains_key(p)
                    &&& disk.contains_key(p) ==> after[p] == disk[p]
                }
        }),
{
    let offsets = plan_offsets(plan);
    lemma_normalized_same(offsets);
    let sender = SendView::started(files, total_bytes, offsets);
    let start = ReceiveView::started(manifests_of(files), plan, total_bytes);
    assert(sound_parts(plan, disk, files, contents, 0));
    lemma_files_arrive(files, contents, plan, disk, total_bytes, saved);
    lemma_run_from(sender, start, contents, saved, disk);
    let (end, after) = run(start, saved, disk, stream_of(sender, contents));
    assert forall|i: int|
        #![trigger plan[i]]
        0 <= i < plan.len() && plan[i].offset >= files[i].size && disk.contains_key(
            plan[i].final_path,
        ) implies after.contains_key(plan[i].final_path) && after[plan[i].final_path]
        == disk[plan[i].final_path] by {
        assert(in_place(plan[i], files[i].size, disk));
        assert(same_at(after, disk, plan[i].final_path));
    }
    assert forall|i: int|
        #![trigger plan[i]]
        0 <= i < plan.len() && !(plan[i].offset >= files[i].size && disk.contains_key(
            plan[i].final_path,
        )) implies after.contains_key(plan[i].final_path) && after[plan[i].final_path]
        == contents[i] && !after.contains_key(plan[i].temp_path) by {
        assert(!in_place(plan[i], files[i].size, disk));
    }
    assert forall|p: InboxPathView|
        (forall|i: int|
            0 <= i < plan.len() ==> (#[trigger] plan[i]).final_path != p && plan[i].temp_path != p)
            implies {
        &&& #[trigger] after.contains_key(p) == disk.contains_key(p)
        &&& disk.contains_key(p) ==> after[p] == disk[p]
    } by {
        assert(!written_at(plan, disk, files, 0, p));
        assert(same_at(after, disk, p));
    }
}

/// Folder structure is preserved from end to end: of every file of every folder
/// that was chosen, however many there are, the collected list has an entry that
/// is received below a folder of the same name, in the same folders, under the
/// same name.
pub proof fn lemma_chosen_folders_arrive(
    sources: Seq<SourcePath>,
    output: Seq<LocalFileView>,
    i: int,
    name: String,
    files: Vec<FolderFile>,
    j: int,
    parts: Seq<Seq<char>>,
    platform: Platform,
) -> (k: int)
    requires
        stably_sorted(all_files(sources), by_relative_path(), output),
        all_files(sources).len() <= usize::MAX,
        0 <= i < sources.len(),
        sources[i].found == (Found::Folder { name: Some(name), files }),
        0 <= j < files.len(),
        parts.len() > 0,
        files[j].inside@ == joined(parts),
        kept_part(platform, name@) && slash_free(name@),
        forall|p: int|
            0 <= p < parts.len() ==> kept_part(platform, #[trigger] parts[p]) && slash_free(
                parts[p],
            ),
    ensures
        0 <= k < output.len(),
        output[k].source == files[j].source,
        output[k].size == files[j].size,
        sanitized(output[k].relative_path, platform) == seq![name@] + parts,
{
    reveal_strlit("/");
    let k = lemma_folder_files_are_sent(sources, output, i, Some(name), files, j);
    let all = seq![name@] + parts;
    lemma_joined_front(name@, parts);
    assert forall|p: int| 0 <= p < all.len() implies kept_part(platform, #[trigger] all[p])
        && slash_free(all[p]) by {
        if p > 0 {
            assert(all[p] == parts[p - 1]);
        }
    }
    lemma_kept_parts_are_kept(all, platform);
    let text = name@ + "/"@ + files[j].inside@;
    assert(text =~= joined(all));
    lemma_joined_has_no_backslash(all);
    assert(output[k].relative_path =~= joined(all)) by {
        assert forall|c: int| 0 <= c < text.len() implies #[trigger] output[k].relative_path[c]
            == joined(all)[c] by {
            assert(joined(all)[c] != '\\');
        }
    }
    k
}

} // verus!
