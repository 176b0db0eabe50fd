//! Receiving files: where each file goes, from where on it is needed, and how
//! a transfer proceeds chunk by chunk.

use crate::model::{
    manifests, FileManifest, ManifestView, ResponseView, TransferRequest, TransferResponse,
    TransferView, COPY_BUFFER_BYTES,
};
use crate::paths::{
    answered, extension, file_name_like, file_stem, lemma_sanitized_stays_inside, normal_part,
    numbered, numbered_name, sanitize_relative_path, sanitized, slash_free, taken, taken_below, temp_name,
    temp_path, temp_path_for, unique_destination_path, unique_outcome, InboxPath, InboxPathView, Platform,
};
use crate::progress::{patched, receiving_from, TransferPatch};
use crate::resume::{
    checked_resumed, lemma_resumed_and_outstanding, manifest_sizes, outstanding,
    outstanding_from, resumed, sizes_of_manifests, total_size,
};
use crate::text::{
    copy_opt_text, decimal, is_digit, last_position, lemma_decimal_spells, lemma_last_position, opt_text,
};
use vstd::prelude::*;

verus! {

/// Where a file is received, and from where on it is needed.
#[derive(Debug)]
pub struct ReceivePlan {
    pub final_path: InboxPath,
    pub temp_path: InboxPath,
    pub offset: u64,
}

/// The view of a [`ReceivePlan`].
#[verifier::ext_equal]
pub struct PlanView {
    pub final_path: InboxPathView,
    pub temp_path: InboxPathView,
    pub offset: u64,
}

impl View for ReceivePlan {
    type V = PlanView;

    open spec fn view(&self) -> PlanView {
        PlanView {
            final_path: self.final_path@,
            temp_path: self.temp_path@,
            offset: self.offset,
        }
    }
}

/// The views of the plans of a transfer.
pub open spec fn plans(s: Seq<ReceivePlan>) -> Seq<PlanView> {
    s.map_values(|p: ReceivePlan| p@)
}

/// Where a file would best be received.
pub open spec fn preferred_path(
    inbox: Seq<char>,
    relative_path: Seq<char>,
    platform: Platform,
) -> InboxPathView {
    InboxPathView { inbox, parts: sanitized(relative_path, platform) }
}

/// From where on a file of this size is needed: not at all if it is there in
/// full, from the end of the unfinished part if there is one that fits, else
/// from the start.
pub open spec fn offset_for(final_len: Option<u64>, temp_len: Option<u64>, size: u64) -> u64 {
    match final_len {
        Some(len) => if len == size {
            len
        } else {
            0
        },
        None => match temp_len {
            Some(len) => if len <= size {
                len
            } else {
                0
            },
            None => 0,
        },
    }
}

/// From where on a file is needed.
pub fn resume_offset(final_len: Option<u64>, temp_len: Option<u64>, size: u64) -> (r: u64)
    ensures
        r == offset_for(final_len, temp_len, size),
{
    match final_len {
        Some(len) => if len == size {
            len
        } else {
            0
        },
        None => match temp_len {
            Some(len) => if len <= size {
                len
            } else {
                0
            },
            None => 0,
        },
    }
}

/// Where a file may come to be received: at the preferred path if there was no
/// file or one of the right size, else at a path that was found free.
pub open spec fn final_outcome<F: Fn(&InboxPath) -> Option<u64>>(
    stat: F,
    preferred: InboxPathView,
    size: u64,
    r: InboxPathView,
) -> bool {
    ||| answered(stat, preferred, None) && r == preferred
    ||| answered(stat, preferred, Some(size)) && r == preferred
    ||| (exists|len: u64| len != size && #[trigger] answered(stat, preferred, Some(len)))
        && unique_outcome(stat, preferred, r)
}

/// From where on a file may come to be needed. The unfinished part counts only
/// where there was no file at the final path.
pub open spec fn offset_outcome<F: Fn(&InboxPath) -> Option<u64>>(
    stat: F,
    final_path: InboxPathView,
    temp: InboxPathView,
    size: u64,
    offset: u64,
) -> bool {
    ||| exists|len: u64| #[trigger]
        answered(stat, final_path, Some(len)) && offset == offset_for(Some(len), None, size)
    ||| answered(stat, final_path, None) && exists|len: Option<u64>| #[trigger]
        answered(stat, temp, len) && offset == offset_for(None, len, size)
}

/// What the plan for one file may come to, given what `stat` answered.
pub open spec fn plan_outcome<F: Fn(&InboxPath) -> Option<u64>>(
    stat: F,
    inbox: Seq<char>,
    platform: Platform,
    transfer_id: Seq<char>,
    file: ManifestView,
    plan: PlanView,
) -> bool {
    &&& final_outcome(
        stat,
        preferred_path(inbox, file.relative_path, platform),
        file.size,
        plan.final_path,
    )
    &&& plan.temp_path == temp_path(plan.final_path, transfer_id)
    &&& offset_outcome(stat, plan.final_path, plan.temp_path, file.size, plan.offset)
}

proof fn lemma_preferred_file_name(
    inbox: Seq<char>,
    relative_path: Seq<char>,
    platform: Platform,
)
    ensures
        preferred_path(inbox, relative_path, platform).parts.len() > 0,
        file_name_like(preferred_path(inbox, relative_path, platform).file_name()),
{
    lemma_sanitized_stays_inside(relative_path, platform);
    let parts = sanitized(relative_path, platform);
    assert(slash_free(parts[parts.len() - 1]));
}

/// A numbered file name is a file name.
pub proof fn lemma_numbered_name(name: Seq<char>, index: nat)
    requires
        file_name_like(name),
    ensures
        file_name_like(numbered_name(name, index)),
{
    reveal_strlit(" (");
    reveal_strlit(").");
    reveal_strlit(")");
    reveal_strlit(".");
    reveal_strlit("..");
    lemma_decimal_spells(index);
    lemma_last_position(name, '.');
    let r = numbered_name(name, index);
    let stem = file_stem(name);
    let digits = decimal(index);
    assert(slash_free(stem));
    assert(slash_free(digits)) by {
        assert forall|i: int| 0 <= i < digits.len() implies #[trigger] digits[i] != '/'
            && digits[i] != '\\' by {
            assert(is_digit(digits[i]));
        }
    }
    assert(slash_free(" ("@));
    assert(slash_free(")."@));
    assert(slash_free(")"@));
    lemma_slash_free_sum(stem, " ("@);
    lemma_slash_free_sum(stem + " ("@, digits);
    let numbered = stem + " ("@ + digits;
    match extension(name) {
        Some(e) => {
            assert(slash_free(e)) by {
                assert forall|i: int| 0 <= i < e.len() implies #[trigger] e[i] != '/' && e[i]
                    != '\\' by {
                    assert(e[i] == name[i + last_position(name, '.') + 1]);
                }
            }
            lemma_slash_free_sum(numbered, ")."@);
            lemma_slash_free_sum(numbered + ")."@, e);
        },
        None => {},
    }
    lemma_slash_free_sum(numbered, ")"@);
    assert(r.len() > 2);
}

/// A numbered name is one that a part of a path may have, if the name is: in
/// particular it leads to no drive.
pub proof fn lemma_numbered_name_is_normal(platform: Platform, name: Seq<char>, index: nat)
    requires
        file_name_like(name),
        normal_part(platform, name),
    ensures
        normal_part(platform, numbered_name(name, index)),
{
    reveal_strlit(" (");
    lemma_numbered_name(name, index);
    lemma_last_position(name, '.');
    let r = numbered_name(name, index);
    let stem = file_stem(name);
    assert(stem.len() > 0);
    assert(r[0] == name[0]);
    if stem.len() == 1 {
        assert(r[1] == ' ');
    } else {
        assert(r[1] == name[1]);
    }
}

proof fn lemma_slash_free_sum(a: Seq<char>, b: Seq<char>)
    requires
        slash_free(a),
        slash_free(b),
    ensures
        slash_free(a + b),
{
    assert forall|i: int| 0 <= i < (a + b).len() implies #[trigger] (a + b)[i] != '/' && (a + b)[i]
        != '\\' by {
        if i < a.len() {
            assert((a + b)[i] == a[i]);
        } else {
            assert((a + b)[i] == b[i - a.len()]);
        }
    }
}

/// What a search for a free path comes to is a file beside the one that was
/// asked for.
pub proof fn lemma_unique_outcome_beside<F: Fn(&InboxPath) -> Option<u64>>(
    stat: F,
    path: InboxPathView,
    r: InboxPathView,
)
    requires
        path.parts.len() > 0,
        file_name_like(path.file_name()),
        unique_outcome(stat, path, r),
    ensures
        r.inbox == path.inbox,
        r.parts.len() == path.parts.len(),
        r.parts.drop_last() == path.parts.drop_last(),
        file_name_like(r.file_name()),
{
    if r != path {
        let k = choose|k: nat| 1 <= k < 10_000 && r == #[trigger] numbered(path, k);
        lemma_numbered_name(path.file_name(), k);
        assert(r.parts.drop_last() =~= path.parts.drop_last());
    }
}

/// Plans where each file of a request is received, and from where on it is
/// needed. `stat` looks a file up and gives its length.
pub fn build_receive_plan<F: Fn(&InboxPath) -> Option<u64>>(
    inbox_dir: &str,
    request: &TransferRequest,
    platform: Platform,
    stat: &F,
) -> (r: Vec<ReceivePlan>)
    requires
        forall|p: InboxPath| stat.requires((&p,)),
    ensures
        r.len() == request.files.len(),
        forall|i: int|
            0 <= i < r.len() ==> plan_outcome(
                *stat,
                inbox_dir@,
                platform,
                request@.transfer_id,
                request@.files[i],
                (#[trigger] r[i])@,
            ),
{
    let mut plan: Vec<ReceivePlan> = Vec::new();
    for i in 0..request.files.len()
        invariant
            forall|p: InboxPath| stat.requires((&p,)),
            plan.len() == i,
            forall|k: int|
                0 <= k < i ==> plan_outcome(
                    *stat,
                    inbox_dir@,
                    platform,
                    request@.transfer_id,
                    request@.files[k],
                    (#[trigger] plan[k])@,
                ),
    {
        let file = &request.files[i];
        assert(request@.files[i as int] == file@);
        let preferred = InboxPath {
            inbox: inbox_dir.to_owned(),
            relative: sanitize_relative_path(&file.relative_path, platform),
        };
        proof {
            lemma_preferred_file_name(inbox_dir@, file.relative_path@, platform);
        }
        assert(preferred@ == preferred_path(inbox_dir@, file@.relative_path, platform));
        let found: Option<u64> = stat(&preferred);
        assert(answered(*stat, preferred@, found));
        let keep: bool = match found {
            Some(len) => len == file.size,
            None => true,
        };
        let final_path = if keep {
            preferred.clone()
        } else {
            let free = unique_destination_path(&preferred, stat);
            proof {
                lemma_unique_outcome_beside(*stat, preferred@, free@);
            }
            free
        };
        assert(final_outcome(*stat, preferred@, file.size, final_path@));
        let temp = temp_path_for(&final_path, &request.transfer_id);
        let final_len: Option<u64> = stat(&final_path);
        assert(answered(*stat, final_path@, final_len));
        let temp_len: Option<u64> = match final_len {
            Some(_) => None,
            None => {
                let len: Option<u64> = stat(&temp);
                assert(answered(*stat, temp@, len));
                len
            },
        };
        let offset: u64 = resume_offset(final_len, temp_len, file.size);
        plan.push(ReceivePlan { final_path, temp_path: temp, offset });
    }
    plan
}

// ---------------------------------------------------------------------------
// What a plan promises
// ---------------------------------------------------------------------------

/// Whatever files there are, a plan stays in the folder that was asked for, under
/// a name that leads nowhere else, and never skips past the end. The unfinished part has a name made of the file's
/// and the transfer id; with an id that has no slash it is a file beside it.
pub proof fn lemma_plan_in_place<F: Fn(&InboxPath) -> Option<u64>>(
    stat: F,
    inbox: Seq<char>,
    platform: Platform,
    transfer_id: Seq<char>,
    file: ManifestView,
    plan: PlanView,
)
    requires
        plan_outcome(stat, inbox, platform, transfer_id, file, plan),
    ensures
        plan.final_path.inbox == inbox,
        plan.final_path.parts.len() == sanitized(file.relative_path, platform).len(),
        plan.final_path.parts.drop_last() == sanitized(file.relative_path, platform).drop_last(),
        file_name_like(plan.final_path.file_name()),
        normal_part(platform, plan.final_path.file_name()),
        plan.temp_path == temp_path(plan.final_path, transfer_id),
        plan.temp_path.inbox == inbox,
        plan.temp_path.parts.drop_last() == plan.final_path.parts.drop_last(),
        slash_free(transfer_id) ==> file_name_like(plan.temp_path.file_name()),
        plan.offset <= file.size,
{
    let preferred = preferred_path(inbox, file.relative_path, platform);
    lemma_preferred_file_name(inbox, file.relative_path, platform);
    lemma_sanitized_stays_inside(file.relative_path, platform);
    let parts = sanitized(file.relative_path, platform);
    assert(normal_part(platform, parts[parts.len() - 1]));
    if plan.final_path != preferred {
        lemma_unique_outcome_beside(stat, preferred, plan.final_path);
        let k = choose|k: nat|
            1 <= k < 10_000 && plan.final_path == #[trigger] numbered(preferred, k);
        lemma_numbered_name_is_normal(platform, preferred.file_name(), k);
    }
    assert(plan.temp_path.parts.drop_last() =~= plan.final_path.parts.drop_last());
    if slash_free(transfer_id) {
        reveal_strlit(".");
        reveal_strlit("..");
        reveal_strlit(".part");
        let name = plan.final_path.file_name();
        assert(slash_free("."@));
        assert(slash_free(".part"@));
        lemma_slash_free_sum(name, "."@);
        lemma_slash_free_sum(name + "."@, transfer_id);
        lemma_slash_free_sum(name + "."@ + transfer_id, ".part"@);
        assert(plan.temp_path.file_name() == temp_name(name, transfer_id));
    }
}

/// Whether `stat` always answers what `files` says.
pub open spec fn settled<F: Fn(&InboxPath) -> Option<u64>>(
    stat: F,
    files: spec_fn(InboxPathView) -> Option<u64>,
) -> bool {
    forall|p: InboxPath, len: Option<u64>| #[trigger]
        stat.ensures((&p,), len) ==> len == files(p@)
}

/// The first free numbered path from `index` on, or the path itself.
pub open spec fn free_path_from(
    files: spec_fn(InboxPathView) -> Option<u64>,
    path: InboxPathView,
    index: nat,
) -> InboxPathView
    decreases 10_000 - index,
{
    if index >= 10_000 {
        path
    } else if files(numbered(path, index)) is None {
        numbered(path, index)
    } else {
        free_path_from(files, path, index + 1)
    }
}

/// The plan for one file, given the files that there are.
pub open spec fn planned(
    files: spec_fn(InboxPathView) -> Option<u64>,
    inbox: Seq<char>,
    platform: Platform,
    transfer_id: Seq<char>,
    file: ManifestView,
) -> PlanView {
    let preferred = preferred_path(inbox, file.relative_path, platform);
    let final_path = if files(preferred) is None || files(preferred) == Some(file.size) {
        preferred
    } else {
        free_path_from(files, preferred, 1)
    };
    let temp = temp_path(final_path, transfer_id);
    PlanView {
        final_path,
        temp_path: temp,
        offset: offset_for(files(final_path), files(temp), file.size),
    }
}

proof fn lemma_free_path_found(
    files: spec_fn(InboxPathView) -> Option<u64>,
    path: InboxPathView,
    index: nat,
    k: nat,
)
    requires
        1 <= index <= k <= 10_000,
        forall|j: nat| 1 <= j < k ==> files(#[trigger] numbered(path, j)) is Some,
        k < 10_000 ==> files(numbered(path, k)) is None,
    ensures
        free_path_from(files, path, index) == (if k < 10_000 {
            numbered(path, k)
        } else {
            path
        }),
    decreases k - index,
{
    if index < k {
        assert(files(numbered(path, index)) is Some);
        lemma_free_path_found(files, path, index + 1, k);
    }
}

/// Where the files stay as they are while the plan is made, the plan is
/// determined by them.
pub proof fn lemma_plan_is_determined<F: Fn(&InboxPath) -> Option<u64>>(
    stat: F,
    files: spec_fn(InboxPathView) -> Option<u64>,
    inbox: Seq<char>,
    platform: Platform,
    transfer_id: Seq<char>,
    file: ManifestView,
    plan: PlanView,
)
    requires
        settled(stat, files),
        plan_outcome(stat, inbox, platform, transfer_id, file, plan),
    ensures
        plan == planned(files, inbox, platform, transfer_id, file),
{
    assert forall|p: InboxPathView, len: Option<u64>| #[trigger]
        answered(stat, p, len) implies len == files(p) by {
        let q = choose|q: InboxPath| q@ == p && #[trigger] stat.ensures((&q,), len);
    }
    let preferred = preferred_path(inbox, file.relative_path, platform);
    let expected = planned(files, inbox, platform, transfer_id, file);
    if !(files(preferred) is None || files(preferred) == Some(file.size)) {
        assert(unique_outcome(stat, preferred, plan.final_path));
        assert forall|k: nat| taken_below(stat, preferred, k) implies (forall|j: nat|
            1 <= j < k ==> files(#[trigger] numbered(preferred, j)) is Some) by {
            assert forall|j: nat| 1 <= j < k implies files(#[trigger] numbered(preferred, j)) is Some by {
                assert(taken(stat, numbered(preferred, j)));
            }
        }
        if exists|k: nat|
            1 <= k < 10_000 && plan.final_path == #[trigger] numbered(preferred, k) && answered(
                stat,
                numbered(preferred, k),
                None,
            ) && taken_below(stat, preferred, k) {
            let k = choose|k: nat|
                1 <= k < 10_000 && plan.final_path == #[trigger] numbered(preferred, k)
                    && answered(stat, numbered(preferred, k), None) && taken_below(
                    stat,
                    preferred,
                    k,
                );
            lemma_free_path_found(files, preferred, 1, k);
        } else {
            lemma_free_path_found(files, preferred, 1, 10_000);
        }
    }
    assert(plan.final_path == expected.final_path);
    assert(plan.offset == expected.offset);
}

/// A file that is there is not written over: a plan either leads to a path at
/// which there is no file, or to a file of the right size of which nothing is
/// needed, unless all 9999 numbered names are taken.
pub proof fn lemma_plan_spares_files(
    files: spec_fn(InboxPathView) -> Option<u64>,
    inbox: Seq<char>,
    platform: Platform,
    transfer_id: Seq<char>,
    file: ManifestView,
)
    requires
        exists|k: nat|
            1 <= k < 10_000 && files(
                #[trigger] numbered(preferred_path(inbox, file.relative_path, platform), k),
            ) is None,
    ensures
        ({
            let plan = planned(files, inbox, platform, transfer_id, file);
            ||| files(plan.final_path) is None
            ||| files(plan.final_path) == Some(file.size) && plan.offset == file.size
        }),
{
    let preferred = preferred_path(inbox, file.relative_path, platform);
    let k = choose|k: nat| 1 <= k < 10_000 && files(#[trigger] numbered(preferred, k)) is None;
    lemma_free_path_is_free(files, preferred, 1, k);
}

proof fn lemma_free_path_is_free(
    files: spec_fn(InboxPathView) -> Option<u64>,
    path: InboxPathView,
    index: nat,
    k: nat,
)
    requires
        index <= k < 10_000,
        files(numbered(path, k)) is None,
    ensures
        files(free_path_from(files, path, index)) is None,
    decreases k - index,
{
    if index < k && files(numbered(path, index)) is Some {
        lemma_free_path_is_free(files, path, index + 1, k);
    }
}

proof fn lemma_free_path_same(
    files: spec_fn(InboxPathView) -> Option<u64>,
    later: spec_fn(InboxPathView) -> Option<u64>,
    path: InboxPathView,
    index: nat,
)
    requires
        1 <= index,
        later(path) == files(path),
        forall|k: nat|
            1 <= k < 10_000 ==> later(#[trigger] numbered(path, k)) == files(numbered(path, k)),
    ensures
        free_path_from(later, path, index) == free_path_from(files, path, index),
        later(free_path_from(files, path, index)) == files(free_path_from(files, path, index)),
    decreases 10_000 - index,
{
    if index < 10_000 && files(numbered(path, index)) is Some {
        lemma_free_path_same(files, later, path, index + 1);
    }
}

/// An interrupted transfer is resumed: where an unfinished part was left at the
/// place of the first plan, a second plan under the same transfer id leads to
/// the same file, and needs it from the end of that part on. Of the other files
/// only those count that stand where this one could be received.
pub proof fn lemma_plan_resumes(
    files: spec_fn(InboxPathView) -> Option<u64>,
    later: spec_fn(InboxPathView) -> Option<u64>,
    inbox: Seq<char>,
    platform: Platform,
    transfer_id: Seq<char>,
    file: ManifestView,
    done: u64,
)
    requires
        ({
            let preferred = preferred_path(inbox, file.relative_path, platform);
            let plan = planned(files, inbox, platform, transfer_id, file);
            &&& files(plan.final_path) is None
            &&& later(plan.temp_path) == Some(done)
            &&& later(preferred) == files(preferred)
            &&& forall|k: nat|
                1 <= k < 10_000 ==> later(#[trigger] numbered(preferred, k)) == files(
                    numbered(preferred, k),
                )
        }),
        done <= file.size,
    ensures
        ({
            let plan = planned(files, inbox, platform, transfer_id, file);
            planned(later, inbox, platform, transfer_id, file) == (PlanView { offset: done, ..plan })
        }),
{
    lemma_free_path_same(files, later, preferred_path(inbox, file.relative_path, platform), 1);
}

/// A file name, and the same name with a number: up to the extension both have
/// the same characters, then the one has a dot or ends, and the other a space.
proof fn lemma_numbered_spelling(name: Seq<char>, index: nat)
    requires
        file_name_like(name),
    ensures
        ({
            let n = file_stem(name).len() as int;
            let digits = decimal(index);
            let r = numbered_name(name, index);
            &&& n <= name.len()
            &&& n < name.len() ==> name[n] == '.'
            &&& r.len() > n + 2 + digits.len()
            &&& r[n] == ' '
            &&& forall|i: int| 0 <= i < digits.len() ==> r[n + 2 + i] == #[trigger] digits[i]
            &&& r[n + 2 + digits.len()] == ')'
            &&& r.len() - digits.len() == numbered_name(name, 0).len() - decimal(0).len()
        }),
{
    reveal_strlit(" (");
    reveal_strlit(").");
    reveal_strlit(")");
    lemma_last_position(name, '.');
}

/// The unfinished part of a file never stands where the file itself could be
/// received, whatever number it has.
pub proof fn lemma_temp_path_is_apart(
    path: InboxPathView,
    transfer_id: Seq<char>,
    j: nat,
    k: nat,
)
    requires
        path.parts.len() > 0,
        file_name_like(path.file_name()),
    ensures
        temp_path(path, transfer_id) != path,
        temp_path(path, transfer_id) != numbered(path, k),
        temp_path(numbered(path, j), transfer_id) != path,
        temp_path(numbered(path, j), transfer_id) != numbered(path, k),
{
    reveal_strlit(".");
    reveal_strlit("..");
    reveal_strlit(".part");
    let name = path.file_name();
    let n = file_stem(name).len() as int;
    let a = decimal(j);
    let b = decimal(k);
    lemma_numbered_name(name, j);
    lemma_numbered_spelling(name, j);
    lemma_numbered_spelling(name, k);
    lemma_decimal_spells(j);
    lemma_decimal_spells(k);
    let numbered_j = numbered_name(name, j);
    let numbered_k = numbered_name(name, k);
    let t = temp_name(name, transfer_id);
    let u = temp_name(numbered_j, transfer_id);
    assert(temp_path(path, transfer_id).parts.last() == t);
    assert(numbered(path, j).parts.last() == numbered_j);
    assert(numbered(path, k).parts.last() == numbered_k);
    assert(temp_path(numbered(path, j), transfer_id).parts.last() == u);
    assert(t.len() > name.len());
    assert(t[n] == '.');
    assert(u[n] == numbered_j[n]);
    if u == numbered_k {
        assert(u[n + 2 + a.len()] == ')');
        if a.len() < b.len() {
            assert(numbered_k[n + 2 + a.len()] == b[a.len() as int]);
            assert(is_digit(b[a.len() as int]));
        } else if b.len() < a.len() {
            assert(u[n + 2 + b.len()] == numbered_j[n + 2 + b.len()]);
            assert(numbered_j[n + 2 + b.len()] == a[b.len() as int]);
            assert(is_digit(a[b.len() as int]));
        }
    }
}

/// The unfinished parts of two transfers of the same file are kept apart, and
/// apart from the file itself.
pub proof fn lemma_temp_paths_differ(path: InboxPathView, a: Seq<char>, b: Seq<char>)
    requires
        path.parts.len() > 0,
        a != b,
    ensures
        temp_path(path, a) != temp_path(path, b),
        temp_path(path, a) != path,
{
    reveal_strlit(".");
    reveal_strlit(".part");
    let above = path.file_name() == ".."@;
    let name = if above {
        "received-file"@
    } else {
        path.file_name()
    };
    let x = temp_name(name, a);
    let y = temp_name(name, b);
    assert(temp_path(path, a).parts.last() == x);
    assert(temp_path(path, b).parts.last() == y);
    assert(x.len() == name.len() + 1 + a.len() + 5);
    assert(above ==> temp_path(path, a).parts.len() == path.parts.len() + 1);
    if x == y {
        assert(a =~= x.subrange(name.len() as int + 1, x.len() - 5));
        assert(b =~= y.subrange(name.len() as int + 1, y.len() - 5));
    }
}

// ---------------------------------------------------------------------------
// The course of a transfer
// ---------------------------------------------------------------------------

/// How far the receiver is with the current file.
#[derive(Debug, Clone, Copy, PartialEq, Eq, Structural)]
pub enum FilePhase {
    /// It is to be seen whether the file is there.
    Looking,
    /// The file is needed.
    Opening,
    /// The contents of the file come.
    Reading,
}

/// What the receiver is to do next.
#[derive(Debug, Clone, Copy, PartialEq, Eq, Structural)]
pub enum ReceiveAction {
    /// See whether there is a file at the final path of the current file.
    LookUp,
    /// Open the unfinished part of the current file, to go on at its end or to
    /// begin anew.
    Open { append: bool },
    /// Take this many bytes from the connection and put them into the file.
    Read { size: usize },
    /// Give the current file its final name.
    Save,
    /// Tell the user that all files are there.
    Finish,
}

/// A transfer that is being received.
#[derive(Debug)]
pub struct ReceiveSession {
    pub files: Vec<FileManifest>,
    pub plan: Vec<ReceivePlan>,
    pub total_bytes: u64,
    pub index: usize,
    pub phase: FilePhase,
    pub remaining: u64,
    pub bytes_done: u64,
    pub first_saved: Option<String>,
}

/// The view of a [`ReceiveSession`].
#[verifier::ext_equal]
pub struct ReceiveView {
    pub files: Seq<ManifestView>,
    pub plan: Seq<PlanView>,
    pub total_bytes: u64,
    pub index: nat,
    pub phase: FilePhase,
    pub remaining: u64,
    pub bytes_done: u64,
    pub first_saved: Option<Seq<char>>,
}

impl View for ReceiveSession {
    type V = ReceiveView;

    open spec fn view(&self) -> ReceiveView {
        ReceiveView {
            files: manifests(self.files@),
            plan: plans(self.plan@),
            total_bytes: self.total_bytes,
            index: self.index as nat,
            phase: self.phase,
            remaining: self.remaining,
            bytes_done: self.bytes_done,
            first_saved: opt_text(self.first_saved),
        }
    }
}

/// The offsets of the plans of a transfer.
pub open spec fn plan_offsets(plan: Seq<PlanView>) -> Seq<u64> {
    plan.map_values(|p: PlanView| p.offset)
}

/// The offsets of the plans of a transfer.
pub fn offsets_of(plan: &Vec<ReceivePlan>) -> (r: Vec<u64>)
    ensures
        r@ == plan_offsets(plans(plan@)),
{
    let mut r: Vec<u64> = Vec::new();
    for i in 0..plan.len()
        invariant
            r.len() == i,
            forall|k: int| 0 <= k < i ==> r[k] == (#[trigger] plan[k]).offset,
    {
        r.push(plan[i].offset);
    }
    assert(r@ =~= plan_offsets(plans(plan@)));
    r
}

impl ReceiveView {
    /// There is a plan for each file, and no file after the last is current.
    pub open spec fn wf(self) -> bool {
        &&& self.plan.len() == self.files.len()
        &&& self.index <= self.files.len()
        &&& self.index == self.files.len() ==> self.phase is Looking
    }

    /// The start of a transfer.
    pub open spec fn started(files: Seq<ManifestView>, plan: Seq<PlanView>, total_bytes: u64) -> Self {
        ReceiveView {
            files,
            plan,
            total_bytes,
            index: 0,
            phase: FilePhase::Looking,
            remaining: 0,
            bytes_done: resumed(plan_offsets(plan), manifest_sizes(files)) as u64,
            first_saved: None,
        }
    }

    /// What is to be done next.
    pub open spec fn action(self) -> ReceiveAction {
        match self.phase {
            FilePhase::Looking => if self.index < self.files.len() {
                ReceiveAction::LookUp
            } else {
                ReceiveAction::Finish
            },
            FilePhase::Opening => ReceiveAction::Open {
                append: self.plan[self.index as int].offset > 0,
            },
            FilePhase::Reading => if self.remaining > 0 {
                ReceiveAction::Read { size: self.chunk() as usize }
            } else {
                ReceiveAction::Save
            },
        }
    }

    /// Whether the current file is there already.
    pub open spec fn skips(self, final_exists: bool) -> bool {
        self.plan[self.index as int].offset >= self.files[self.index as int].size && final_exists
    }

    /// The transfer after it was seen whether the current file is there.
    pub open spec fn looked_up(self, final_exists: bool, saved: Seq<char>) -> Self {
        if self.skips(final_exists) {
            self.past_file(saved)
        } else {
            ReceiveView { phase: FilePhase::Opening, ..self }
        }
    }

    /// The transfer after the current file was found or saved.
    pub open spec fn past_file(self, saved: Seq<char>) -> Self {
        ReceiveView {
            index: self.index + 1,
            phase: FilePhase::Looking,
            first_saved: if self.first_saved is None {
                Some(saved)
            } else {
                self.first_saved
            },
            ..self
        }
    }

    /// The transfer when the contents of the current file are about to come.
    pub open spec fn opened(self) -> Self {
        ReceiveView {
            phase: FilePhase::Reading,
            remaining: outstanding(
                self.plan[self.index as int].offset,
                self.files[self.index as int].size,
            ) as u64,
            ..self
        }
    }

    /// The size of the next chunk of the current file.
    pub open spec fn chunk(self) -> nat {
        if self.remaining <= COPY_BUFFER_BYTES {
            self.remaining as nat
        } else {
            COPY_BUFFER_BYTES as nat
        }
    }

    /// The transfer after the next chunk has come.
    pub open spec fn with_chunk(self) -> Self {
        ReceiveView {
            remaining: (self.remaining - self.chunk()) as u64,
            bytes_done: (self.bytes_done + self.chunk()) as u64,
            ..self
        }
    }

    /// What the user is told about where the files are: the file itself if it
    /// is the only one, else the inbox.
    pub open spec fn saved_path(self, inbox_dir: Seq<char>) -> Option<Seq<char>> {
        if self.files.len() == 1 {
            self.first_saved
        } else {
            Some(inbox_dir)
        }
    }
}

impl ReceiveSession {
    /// There is a plan for each file.
    pub open spec fn wf(&self) -> bool {
        self@.wf()
    }

    /// Starts to receive the files of a request.
    pub fn start(request: TransferRequest, plan: Vec<ReceivePlan>) -> (r: ReceiveSession)
        requires
            plan.len() == request.files.len(),
            resumed(plan_offsets(plans(plan@)), manifest_sizes(request@.files)) <= u64::MAX,
        ensures
            r.wf(),
            r@ == ReceiveView::started(request@.files, plans(plan@), request@.total_bytes),
    {
        let offsets = offsets_of(&plan);
        let sizes = sizes_of_manifests(&request.files);
        let bytes_done: u64 = match checked_resumed(&offsets, &sizes) {
            Some(n) => n,
            None => 0,
        };
        ReceiveSession {
            files: request.files,
            plan,
            total_bytes: request.total_bytes,
            index: 0,
            phase: FilePhase::Looking,
            remaining: 0,
            bytes_done,
            first_saved: None,
        }
    }

    /// The answer that lets the sender begin.
    pub fn response(&self) -> (r: TransferResponse)
        ensures
            r@ == (ResponseView {
                accepted: true,
                message: None,
                offsets: plan_offsets(self@.plan),
            }),
    {
        TransferResponse { accepted: true, message: None, offsets: offsets_of(&self.plan) }
    }

    /// What is to be done next.
    pub fn next_action(&self) -> (r: ReceiveAction)
        requires
            self.wf(),
        ensures
            r == self@.action(),
    {
        match self.phase {
            FilePhase::Looking => if self.index < self.files.len() {
                ReceiveAction::LookUp
            } else {
                ReceiveAction::Finish
            },
            FilePhase::Opening => {
                assert(self@.plan[self.index as int] == self.plan[self.index as int]@);
                ReceiveAction::Open { append: self.plan[self.index].offset > 0 }
            },
            FilePhase::Reading => if self.remaining > 0 {
                ReceiveAction::Read { size: self.chunk_size() }
            } else {
                ReceiveAction::Save
            },
        }
    }

    fn chunk_size(&self) -> (r: usize)
        ensures
            r == self@.chunk(),
    {
        if self.remaining <= COPY_BUFFER_BYTES as u64 {
            self.remaining as usize
        } else {
            COPY_BUFFER_BYTES
        }
    }

    /// It was seen whether there is a file at the final path, which is shown as
    /// `saved`.
    pub fn looked_up(&mut self, final_exists: bool, saved: &str)
        requires
            old(self).wf(),
            old(self)@.action() is LookUp,
        ensures
            final(self).wf(),
            final(self)@ == old(self)@.looked_up(final_exists, saved@),
    {
        let size: u64 = self.files[self.index].size;
        let offset: u64 = self.plan[self.index].offset;
        assert(self@.files[self.index as int].size == size);
        assert(self@.plan[self.index as int].offset == offset);
        if offset >= size && final_exists {
            self.go_on(saved);
        } else {
            self.phase = FilePhase::Opening;
        }
    }

    /// The unfinished part of the current file was opened.
    pub fn opened(&mut self) -> (r: TransferPatch)
        requires
            old(self).wf(),
            old(self)@.action() is Open,
        ensures
            final(self).wf(),
            final(self)@ == old(self)@.opened(),
            r matches TransferPatch::ReceivingFile { name } && name@
                == old(self)@.files[old(self)@.index as int].relative_path,
    {
        let size: u64 = self.files[self.index].size;
        let offset: u64 = self.plan[self.index].offset;
        assert(self@.files[self.index as int] == self.files[self.index as int]@);
        assert(self@.plan[self.index as int].offset == offset);
        self.phase = FilePhase::Reading;
        self.remaining = if offset <= size {
            size - offset
        } else {
            0
        };
        TransferPatch::ReceivingFile { name: self.files[self.index].relative_path.clone() }
    }

    /// The next chunk has come and was put into the file.
    pub fn stored(&mut self) -> (r: TransferPatch)
        requires
            old(self).wf(),
            old(self)@.action() is Read,
            old(self)@.bytes_done + old(self)@.chunk() <= u64::MAX,
        ensures
            final(self).wf(),
            final(self)@ == old(self)@.with_chunk(),
            r == (TransferPatch::BytesDone { bytes_done: final(self)@.bytes_done }),
    {
        let n: u64 = self.chunk_size() as u64;
        self.remaining = self.remaining - n;
        self.bytes_done = self.bytes_done + n;
        TransferPatch::BytesDone { bytes_done: self.bytes_done }
    }

    /// The current file has its final name, which is shown as `saved`.
    pub fn saved(&mut self, saved: &str)
        requires
            old(self).wf(),
            old(self)@.action() is Save,
        ensures
            final(self).wf(),
            final(self)@ == old(self)@.past_file(saved@),
    {
        self.go_on(saved);
    }

    fn go_on(&mut self, saved: &str)
        requires
            old(self).wf(),
            old(self)@.index < old(self)@.files.len(),
        ensures
            final(self).wf(),
            final(self)@ == old(self)@.past_file(saved@),
    {
        if self.first_saved.is_none() {
            self.first_saved = Some(saved.to_owned());
        }
        assert(self.index < self.files.len());
        self.index = self.index + 1;
        self.phase = FilePhase::Looking;
    }

    /// The last step of the transfer.
    pub fn finished(&self, inbox_dir: &str) -> (r: TransferPatch)
        requires
            self.wf(),
            self@.action() is Finish,
        ensures
            r matches TransferPatch::Received { total_bytes, saved_path } && total_bytes
                == self@.total_bytes && opt_text(saved_path) == self@.saved_path(inbox_dir@),
    {
        let saved_path: Option<String> = if self.files.len() == 1 {
            copy_opt_text(&self.first_saved)
        } else {
            Some(inbox_dir.to_owned())
        };
        TransferPatch::Received { total_bytes: self.total_bytes, saved_path }
    }
}

/// A transfer after all chunks of the current file have come.
pub open spec fn drained(v: ReceiveView) -> ReceiveView
    decreases v.remaining,
{
    if v.remaining == 0 {
        v
    } else {
        drained(v.with_chunk())
    }
}

/// A transfer after all its files from the current one on are through.
/// `in_place` says which files are found in place, `saved` where each one is.
pub open spec fn completed(
    v: ReceiveView,
    in_place: spec_fn(nat) -> bool,
    saved: spec_fn(nat) -> Seq<char>,
) -> ReceiveView
    decreases v.files.len() - v.index,
{
    if v.index >= v.files.len() {
        v
    } else if v.skips(in_place(v.index)) {
        completed(v.past_file(saved(v.index)), in_place, saved)
    } else {
        let done = drained(v.opened());
        proof {
            lemma_drained_frame(v.opened());
        }
        completed(done.past_file(saved(v.index)), in_place, saved)
    }
}

/// Chunks change nothing but the counts.
pub proof fn lemma_drained_frame(v: ReceiveView)
    ensures
        drained(v).files == v.files,
        drained(v).plan == v.plan,
        drained(v).total_bytes == v.total_bytes,
        drained(v).index == v.index,
        drained(v).phase == v.phase,
        drained(v).first_saved == v.first_saved,
    decreases v.remaining,
{
    if v.remaining > 0 {
        lemma_drained_frame(v.with_chunk());
    }
}

/// The chunks of a file add up to what was outstanding of it.
pub proof fn lemma_chunks_add_up(v: ReceiveView)
    requires
        v.bytes_done + v.remaining <= u64::MAX,
    ensures
        drained(v).remaining == 0,
        drained(v).bytes_done == v.bytes_done + v.remaining,
    decreases v.remaining,
{
    if v.remaining > 0 {
        lemma_chunks_add_up(v.with_chunk());
    }
}

/// What is still to come of a transfer.
pub open spec fn still_to_come(v: ReceiveView) -> nat {
    let offsets = plan_offsets(v.plan);
    let sizes = manifest_sizes(v.files);
    if v.phase is Reading {
        v.remaining as nat + outstanding_from(offsets, sizes, v.index + 1)
    } else {
        outstanding_from(offsets, sizes, v.index)
    }
}

/// Whether what is there and what is still to come make up all files.
pub open spec fn accounted(v: ReceiveView) -> bool {
    v.bytes_done + still_to_come(v) == total_size(manifest_sizes(v.files))
}

/// Progress is true at every moment: from the start on and after every step,
/// what is there and what is still to come make up all files. At the end all is
/// there.
pub proof fn lemma_progress_is_accounted(
    files: Seq<ManifestView>,
    plan: Seq<PlanView>,
    total_bytes: u64,
    v: ReceiveView,
    final_exists: bool,
    saved: Seq<char>,
)
    requires
        plan.len() == files.len(),
        total_size(manifest_sizes(files)) <= u64::MAX,
        v.wf(),
        accounted(v),
        total_size(manifest_sizes(v.files)) <= u64::MAX,
    ensures
        accounted(ReceiveView::started(files, plan, total_bytes)),
        v.action() is LookUp ==> accounted(v.looked_up(final_exists, saved)),
        v.action() is Open ==> accounted(v.opened()),
        v.action() is Read ==> accounted(v.with_chunk()) && v.bytes_done
            < v.with_chunk().bytes_done,
        v.action() is Save ==> accounted(v.past_file(saved)),
        v.action() is Finish ==> v.bytes_done == total_size(manifest_sizes(v.files)),
{
    lemma_resumed_and_outstanding(plan_offsets(plan), manifest_sizes(files));
    if v.index < v.files.len() {
        assert(plan_offsets(v.plan)[v.index as int] == v.plan[v.index as int].offset);
        assert(manifest_sizes(v.files)[v.index as int] == v.files[v.index as int].size);
    }
}

proof fn lemma_completed(
    v: ReceiveView,
    in_place: spec_fn(nat) -> bool,
    saved: spec_fn(nat) -> Seq<char>,
)
    requires
        v.wf(),
        v.bytes_done + outstanding_from(
            plan_offsets(v.plan),
            manifest_sizes(v.files),
            v.index,
        ) <= u64::MAX,
    ensures
        v.phase is Looking ==> completed(v, in_place, saved).action() is Finish,
        completed(v, in_place, saved).total_bytes == v.total_bytes,
        completed(v, in_place, saved).bytes_done == v.bytes_done + outstanding_from(
            plan_offsets(v.plan),
            manifest_sizes(v.files),
            v.index,
        ),
    decreases v.files.len() - v.index,
{
    let offsets = plan_offsets(v.plan);
    let sizes = manifest_sizes(v.files);
    if v.index < v.files.len() {
        let offset = v.plan[v.index as int].offset;
        let size = v.files[v.index as int].size;
        assert(offsets[v.index as int] == offset);
        assert(sizes[v.index as int] == size);
        if v.skips(in_place(v.index)) {
            lemma_completed(v.past_file(saved(v.index)), in_place, saved);
        } else {
            lemma_drained_frame(v.opened());
            lemma_chunks_add_up(v.opened());
            lemma_completed(drained(v.opened()).past_file(saved(v.index)), in_place, saved);
        }
    }
}

/// A transfer comes to its end, whichever files were found in place, and has all
/// bytes of all files then, those that were there before included.
pub proof fn lemma_completed_has_all_bytes(
    files: Seq<ManifestView>,
    plan: Seq<PlanView>,
    total_bytes: u64,
    in_place: spec_fn(nat) -> bool,
    saved: spec_fn(nat) -> Seq<char>,
)
    requires
        plan.len() == files.len(),
        total_size(manifest_sizes(files)) <= u64::MAX,
    ensures
        ({
            let end = completed(ReceiveView::started(files, plan, total_bytes), in_place, saved);
            &&& end.action() is Finish
            &&& end.bytes_done == total_size(manifest_sizes(files))
        }),
{
    lemma_resumed_and_outstanding(plan_offsets(plan), manifest_sizes(files));
    lemma_completed(ReceiveView::started(files, plan, total_bytes), in_place, saved);
}

// ---------------------------------------------------------------------------
// What the steps are for
// ---------------------------------------------------------------------------

/// Whatever the number of files: a file that is there and of which nothing is
/// needed is passed, with nothing opened or saved for it; any other is opened,
/// at the end of its unfinished part if some of it is there.
pub proof fn lemma_looking_decides(v: ReceiveView, final_exists: bool, saved: Seq<char>)
    requires
        v.wf(),
        v.index < v.files.len(),
        v.phase == FilePhase::Looking,
    ensures
        v.action() == ReceiveAction::LookUp,
        ({
            let i = v.index as int;
            let next = v.looked_up(final_exists, saved);
            if v.plan[i].offset >= v.files[i].size && final_exists {
                &&& next.index == v.index + 1
                &&& next.phase == FilePhase::Looking
                &&& next.index < v.files.len() ==> next.action() == ReceiveAction::LookUp
                &&& next.index == v.files.len() ==> next.action() == ReceiveAction::Finish
                &&& next.bytes_done == v.bytes_done
                &&& v.first_saved is None ==> next.first_saved == Some(saved)
                &&& v.first_saved is Some ==> next.first_saved == v.first_saved
            } else {
                &&& next.index == v.index
                &&& next.action() == (ReceiveAction::Open { append: v.plan[i].offset > 0 })
                &&& next.bytes_done == v.bytes_done
                &&& next.first_saved == v.first_saved
            }
        }),
        v.looked_up(final_exists, saved).files == v.files,
        v.looked_up(final_exists, saved).plan == v.plan,
        v.looked_up(final_exists, saved).total_bytes == v.total_bytes,
{
}

/// A file that is opened is read until all that was needed of it has come, in
/// chunks of at most one mebibyte, and is saved then and not before.
pub proof fn lemma_reading_goes_to_the_end(v: ReceiveView, saved: Seq<char>)
    requires
        v.wf(),
        v.index < v.files.len(),
        v.plan[v.index as int].offset <= v.files[v.index as int].size,
        v.bytes_done + v.remaining <= u64::MAX,
    ensures
        ({
            let i = v.index as int;
            let open = v.opened();
            &&& open.remaining == v.files[i].size - v.plan[i].offset
            &&& open.index == v.index
            &&& open.bytes_done == v.bytes_done
            &&& open.action() == ReceiveAction::Save <==> v.plan[i].offset == v.files[i].size
        }),
        v.phase == FilePhase::Reading && v.remaining > 0 ==> {
            let next = v.with_chunk();
            &&& v.action() matches ReceiveAction::Read { size } && {
                &&& 0 < size <= 1_048_576
                &&& size <= v.remaining
                &&& size < 1_048_576 ==> size == v.remaining
                &&& next.remaining == v.remaining - size
                &&& next.bytes_done == v.bytes_done + size
            }
            &&& next.index == v.index
            &&& next.phase == v.phase
            &&& next.first_saved == v.first_saved
        },
        v.phase == FilePhase::Reading && v.remaining == 0 ==> v.action() == ReceiveAction::Save,
        ({
            let next = v.past_file(saved);
            &&& next.index == v.index + 1
            &&& next.phase == FilePhase::Looking
            &&& next.bytes_done == v.bytes_done
            &&& v.first_saved is None ==> next.first_saved == Some(saved)
            &&& v.first_saved is Some ==> next.first_saved == v.first_saved
        }),
{
}

/// A transfer starts with its first file, and with the bytes that the plan counts
/// as there. The user is shown the only file, or the inbox.
pub proof fn lemma_receiving_starts(
    files: Seq<ManifestView>,
    plan: Seq<PlanView>,
    total_bytes: u64,
    v: ReceiveView,
    inbox_dir: Seq<char>,
)
    requires
        plan.len() == files.len(),
        total_size(manifest_sizes(files)) <= u64::MAX,
    ensures
        ({
            let start = ReceiveView::started(files, plan, total_bytes);
            &&& start.files == files
            &&& start.plan == plan
            &&& start.total_bytes == total_bytes
            &&& start.index == 0
            &&& start.first_saved is None
            &&& start.bytes_done == resumed(plan_offsets(plan), manifest_sizes(files))
            &&& files.len() > 0 ==> start.action() == ReceiveAction::LookUp
            &&& files.len() == 0 ==> start.action() == ReceiveAction::Finish
        }),
        v.files.len() == 1 ==> v.saved_path(inbox_dir) == v.first_saved,
        v.files.len() != 1 ==> v.saved_path(inbox_dir) == Some(inbox_dir),
        plan_offsets(plan).len() == plan.len(),
        forall|i: int| 0 <= i < plan.len() ==> #[trigger] plan_offsets(plan)[i] == plan[i].offset,
{
    lemma_resumed_and_outstanding(plan_offsets(plan), manifest_sizes(files));
}

/// The record of a transfer that is received shows the bytes that are there at
/// every moment, and the number never goes down: not when the files are about to
/// come, not with a file that begins, not with a chunk, and not at the end,
/// where it is the sum of all sizes.
pub proof fn lemma_shown_bytes_never_go_down(
    v: ReceiveView,
    t: TransferView,
    name: String,
    saved_path: Option<String>,
)
    requires
        v.wf(),
        accounted(v),
        v.total_bytes == total_size(manifest_sizes(v.files)),
        t.bytes_done == v.bytes_done,
    ensures
        receiving_from(t, v.bytes_done).bytes_done == v.bytes_done,
        v.action() is Open ==> {
            let r = patched(t, TransferPatch::ReceivingFile { name });
            r.bytes_done == v.opened().bytes_done && r.bytes_done >= t.bytes_done
        },
        v.action() is Read ==> {
            let bytes_done = v.with_chunk().bytes_done;
            let r = patched(t, TransferPatch::BytesDone { bytes_done });
            &&& r.bytes_done == v.with_chunk().bytes_done
            &&& r.bytes_done > t.bytes_done
            &&& r.bytes_done <= v.total_bytes
        },
        v.action() is Finish ==> {
            let r = patched(
                t,
                TransferPatch::Received { total_bytes: v.total_bytes, saved_path },
            );
            &&& r.bytes_done == v.bytes_done
            &&& r.bytes_done == total_size(manifest_sizes(v.files))
            &&& r.status is Completed
        },
{
    if v.index < v.files.len() {
        assert(plan_offsets(v.plan)[v.index as int] == v.plan[v.index as int].offset);
        assert(manifest_sizes(v.files)[v.index as int] == v.files[v.index as int].size);
    }
}

/// From where on a file is needed: from its end if it is there with this size,
/// from the start if it is there with another, from the end of the unfinished
/// part if there is one that is not too long, else from the start.
pub proof fn lemma_offsets(final_len: Option<u64>, temp_len: Option<u64>, size: u64)
    ensures
        final_len == Some(size) ==> offset_for(final_len, temp_len, size) == size,
        final_len is Some && final_len != Some(size) ==> offset_for(final_len, temp_len, size)
            == 0,
        final_len is None ==> (temp_len matches Some(len) ==> offset_for(final_len, temp_len, size)
            == (if len > size {
            0
        } else {
            len
        })),
        final_len is None && temp_len is None ==> offset_for(final_len, temp_len, size) == 0,
{
}

/// Where a file is received, given the files that there are: at its own path if
/// that is free or holds a file of the same size; else at the first numbered
/// path that is free, or at its own path if none is.
pub proof fn lemma_where_files_go(
    files: spec_fn(InboxPathView) -> Option<u64>,
    inbox: Seq<char>,
    platform: Platform,
    transfer_id: Seq<char>,
    file: ManifestView,
    k: nat,
)
    ensures
        ({
            let own = InboxPathView { inbox, parts: sanitized(file.relative_path, platform) };
            let plan = planned(files, inbox, platform, transfer_id, file);
            &&& files(own) is None ==> plan.final_path == own
            &&& files(own) == Some(file.size) ==> plan.final_path == own && plan.offset
                == file.size
            &&& files(own) is Some && files(own) != Some(file.size) && 1 <= k < 10_000 && files(
                numbered(own, k),
            ) is None && (forall|j: nat| 1 <= j < k ==> files(#[trigger] numbered(own, j)) is Some)
                ==> plan.final_path == numbered(own, k)
            &&& files(own) is Some && files(own) != Some(file.size) && (forall|j: nat|
                1 <= j < 10_000 ==> files(#[trigger] numbered(own, j)) is Some) ==> {
                &&& plan.final_path == own
                &&& plan.offset == 0
            }
            &&& plan.temp_path == temp_path(plan.final_path, transfer_id)
            &&& files(plan.final_path) is None && files(plan.temp_path) is None ==> plan.offset
                == 0
        }),
{
    let own = preferred_path(inbox, file.relative_path, platform);
    if files(own) is Some && files(own) != Some(file.size) {
        if 1 <= k < 10_000 && files(numbered(own, k)) is None && (forall|j: nat|
            1 <= j < k ==> files(#[trigger] numbered(own, j)) is Some) {
            lemma_free_path_found(files, own, 1, k);
        }
        if forall|j: nat| 1 <= j < 10_000 ==> files(#[trigger] numbered(own, j)) is Some {
            lemma_free_path_found(files, own, 1, 10_000);
        }
    }
}

/// What a search for a free path comes to, given the files that there are: the
/// path itself if it is free, else the first numbered path that is, else the
/// path itself.
pub proof fn lemma_free_paths<F: Fn(&InboxPath) -> Option<u64>>(
    stat: F,
    files: spec_fn(InboxPathView) -> Option<u64>,
    path: InboxPathView,
    r: InboxPathView,
    k: nat,
)
    requires
        settled(stat, files),
        unique_outcome(stat, path, r),
    ensures
        files(path) is None ==> r == path,
        files(path) is Some && 1 <= k < 10_000 && files(numbered(path, k)) is None && (forall|
            j: nat,
        |
            1 <= j < k ==> files(#[trigger] numbered(path, j)) is Some) ==> r == numbered(path, k),
        files(path) is Some && (forall|j: nat|
            1 <= j < 10_000 ==> files(#[trigger] numbered(path, j)) is Some) ==> r == path,
{
    assert forall|p: InboxPathView, len: Option<u64>| #[trigger]
        answered(stat, p, len) implies len == files(p) by {
        let q = choose|q: InboxPath| q@ == p && #[trigger] stat.ensures((&q,), len);
    }
    if files(path) is Some {
        if r != path {
            let m = choose|m: nat|
                1 <= m < 10_000 && r == #[trigger] numbered(path, m) && answered(
                    stat,
                    numbered(path, m),
                    None,
                ) && taken_below(stat, path, m);
            if 1 <= k < m {
                assert(taken(stat, numbered(path, k)));
            }
        } else if 1 <= k < 10_000 && files(numbered(path, k)) is None {
            if exists|m: nat|
                1 <= m < 10_000 && r == #[trigger] numbered(path, m) && answered(
                    stat,
                    numbered(path, m),
                    None,
                ) && taken_below(stat, path, m) {
                let m = choose|m: nat|
                    1 <= m < 10_000 && r == #[trigger] numbered(path, m) && answered(
                        stat,
                        numbered(path, m),
                        None,
                    ) && taken_below(stat, path, m);
            } else {
                assert(taken(stat, numbered(path, k)));
            }
        }
    }
}

/// The views of plans, and of a transfer that is received, have every field.
pub proof fn lemma_receive_views(plan: Seq<ReceivePlan>, s: ReceiveSession)
    ensures
        plans(plan).len() == plan.len(),
        forall|i: int|
            0 <= i < plan.len() ==> {
                &&& (#[trigger] plans(plan)[i]).final_path == plan[i].final_path@
                &&& plans(plan)[i].temp_path == plan[i].temp_path@
                &&& plans(plan)[i].offset == plan[i].offset
            },
        s@.files.len() == s.files.len(),
        s@.plan.len() == s.plan.len(),
        s@.total_bytes == s.total_bytes,
        s@.index == s.index,
        s@.phase == s.phase,
        s@.remaining == s.remaining,
        s@.bytes_done == s.bytes_done,
        s.first_saved matches Some(path) ==> s@.first_saved == Some(path@),
        s.first_saved is None ==> s@.first_saved is None,
{
}

} // verus!
