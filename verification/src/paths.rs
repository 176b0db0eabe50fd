//! Where received files go: relative paths out of a request, made safe, below
//! the inbox.

use crate::text::{
    chars_of, copy_texts, decimal, find_last, forward_slashes, last_position,
    lemma_last_position, push_decimal, same_text, string_of, texts, with_forward_slashes,
};
use vstd::prelude::*;
use vstd::string::StringExecFns;

verus! {

/// The families of systems whose paths and directories differ.
#[derive(Debug, Clone, Copy, PartialEq, Eq, Structural)]
pub enum Platform {
    Windows,
    MacOs,
    Other,
}

/// A path below some directory: folders, then a file name.
#[derive(Debug)]
pub struct RelativePath {
    pub folders: Vec<String>,
    pub file_name: String,
}

impl View for RelativePath {
    type V = Seq<Seq<char>>;

    /// The parts of the path, the file name last.
    open spec fn view(&self) -> Seq<Seq<char>> {
        texts(self.folders@).push(self.file_name@)
    }
}

/// A path below the inbox.
#[derive(Debug)]
pub struct InboxPath {
    pub inbox: String,
    pub relative: RelativePath,
}

/// The view of an [`InboxPath`].
#[verifier::ext_equal]
pub struct InboxPathView {
    pub inbox: Seq<char>,
    pub parts: Seq<Seq<char>>,
}

impl View for InboxPath {
    type V = InboxPathView;

    open spec fn view(&self) -> InboxPathView {
        InboxPathView { inbox: self.inbox@, parts: self.relative@ }
    }
}

impl InboxPathView {
    /// The last part of the path.
    pub open spec fn file_name(self) -> Seq<char> {
        self.parts.last()
    }

    /// The path with another last part.
    pub open spec fn with_file_name(self, name: Seq<char>) -> InboxPathView {
        InboxPathView { inbox: self.inbox, parts: self.parts.drop_last().push(name) }
    }
}

// ---------------------------------------------------------------------------
// Sanitizing
// ---------------------------------------------------------------------------

/// The parts of a text between separators.
pub open spec fn split(s: Seq<char>, separator: char) -> Seq<Seq<char>>
    decreases s.len(),
{
    if s.len() == 0 {
        seq![Seq::empty()]
    } else {
        let front = split(s.drop_last(), separator);
        if s.last() == separator {
            front.push(Seq::empty())
        } else {
            front.drop_last().push(front.last().push(s.last()))
        }
    }
}

/// Whether a text starts with a letter and a colon.
pub open spec fn names_drive(part: Seq<char>) -> bool {
    part.len() >= 2 && part[1] == ':' && (65 <= part[0] as nat <= 90 || 97 <= part[0] as nat
        <= 122)
}

/// Whether one part of a path names a file or a folder: it is not empty, does
/// not stand for the directory itself or the one above it, and, on Windows,
/// does not lead to a drive.
pub open spec fn normal_part(platform: Platform, part: Seq<char>) -> bool {
    &&& part.len() > 0
    &&& part != "."@
    &&& part != ".."@
    &&& !(platform is Windows && names_drive(part))
}

/// The parts of a text that name a file or a folder, in order.
pub open spec fn normal_parts(platform: Platform, parts: Seq<Seq<char>>) -> Seq<Seq<char>>
    decreases parts.len(),
{
    if parts.len() == 0 {
        parts
    } else if normal_part(platform, parts.last()) {
        normal_parts(platform, parts.drop_last()).push(parts.last())
    } else {
        normal_parts(platform, parts.drop_last())
    }
}

/// The safe form of a relative path: its normal parts, whichever slash
/// separates them, or a fixed name where there are none.
pub open spec fn sanitized(relative_path: Seq<char>, platform: Platform) -> Seq<Seq<char>> {
    let kept = normal_parts(platform, split(forward_slashes(relative_path), '/'));
    if kept.len() == 0 {
        seq!["received-file"@]
    } else {
        kept
    }
}

fn is_letter(c: char) -> (r: bool)
    ensures
        r == (65 <= c as nat <= 90 || 97 <= c as nat <= 122),
{
    let n: u32 = c as u32;
    (65 <= n && n <= 90) || (97 <= n && n <= 122)
}

/// Whether one part of a path names a file or a folder.
pub fn is_normal_part(platform: Platform, part: &str) -> (r: bool)
    ensures
        r == normal_part(platform, part@),
{
    let chars = chars_of(part);
    if chars.len() == 0 || same_text(part, ".") || same_text(part, "..") {
        return false;
    }
    let drive: bool = chars.len() >= 2 && chars[1] == ':' && is_letter(chars[0]);
    !(platform == Platform::Windows && drive)
}

/// Makes a relative path safe.
///
/// Backslashes count as slashes. Parts that are empty, that are `.` or `..`,
/// or that name a drive on Windows are left out.
pub fn sanitize_relative_path(relative_path: &str, platform: Platform) -> (r: RelativePath)
    ensures
        r@ == sanitized(relative_path@, platform),
{
    let normalized = with_forward_slashes(relative_path);
    let chars = chars_of(&normalized);
    let mut kept: Vec<String> = Vec::new();
    let mut part = String::new();
    let ghost whole = chars@;
    assert(split(whole.take(0), '/') =~= seq![Seq::<char>::empty()]);
    assert(split(whole.take(0), '/').drop_last() =~= Seq::<Seq<char>>::empty());
    for i in 0..chars.len()
        invariant
            whole == chars@,
            split(whole.take(i as int), '/').len() > 0,
            part@ == split(whole.take(i as int), '/').last(),
            texts(kept@) == normal_parts(platform, split(whole.take(i as int), '/').drop_last()),
    {
        let ghost before = split(whole.take(i as int), '/');
        let ghost old_kept = kept@;
        let ghost old_part = part@;
        assert(whole.take(i + 1).drop_last() =~= whole.take(i as int));
        assert(whole.take(i + 1).last() == chars[i as int]);
        if chars[i] == '/' {
            assert(split(whole.take(i + 1), '/').drop_last() =~= before);
            if is_normal_part(platform, &part) {
                kept.push(part);
                assert(texts(kept@) =~= texts(old_kept).push(old_part));
            }
            part = String::new();
        } else {
            assert(split(whole.take(i + 1), '/').drop_last() =~= before.drop_last());
            part.push(chars[i]);
        }
    }
    assert(whole.take(whole.len() as int) =~= whole);
    let ghost parts = split(whole, '/');
    let ghost old_kept = kept@;
    let ghost old_part = part@;
    if is_normal_part(platform, &part) {
        let r = RelativePath { folders: kept, file_name: part };
        assert(r@ =~= normal_parts(platform, parts));
        return r;
    }
    match kept.pop() {
        Some(name) => {
            let r = RelativePath { folders: kept, file_name: name };
            assert(r@ =~= texts(old_kept));
            r
        },
        None => {
            let r = RelativePath { folders: kept, file_name: "received-file".to_owned() };
            assert(r@ =~= seq!["received-file"@]);
            r
        },
    }
}

/// The parts of a path, joined with slashes.
pub open spec fn joined(parts: Seq<Seq<char>>) -> Seq<char>
    decreases parts.len(),
{
    if parts.len() == 0 {
        Seq::empty()
    } else if parts.len() == 1 {
        parts[0]
    } else {
        joined(parts.drop_last()) + seq!['/'] + parts.last()
    }
}

/// Whether a text has no slash of either kind.
pub open spec fn slash_free(s: Seq<char>) -> bool {
    forall|i: int| 0 <= i < s.len() ==> #[trigger] s[i] != '/' && s[i] != '\\'
}

proof fn lemma_split_parts_slash_free(s: Seq<char>)
    requires
        forall|i: int| 0 <= i < s.len() ==> #[trigger] s[i] != '\\',
    ensures
        split(s, '/').len() > 0,
        forall|i: int| 0 <= i < split(s, '/').len() ==> slash_free(#[trigger] split(s, '/')[i]),
    decreases s.len(),
{
    if s.len() > 0 {
        let front = split(s.drop_last(), '/');
        lemma_split_parts_slash_free(s.drop_last());
        assert(slash_free(front[front.len() - 1]));
        assert forall|i: int| 0 <= i < split(s, '/').len() implies slash_free(
            #[trigger] split(s, '/')[i],
        ) by {
            if i < front.len() - 1 {
                assert(split(s, '/')[i] == front[i]);
            } else if i < front.len() && s.last() == '/' {
                assert(split(s, '/')[i] == front[i]);
            }
        }
    }
}

proof fn lemma_normal_parts(platform: Platform, parts: Seq<Seq<char>>)
    ensures
        forall|i: int|
            0 <= i < normal_parts(platform, parts).len() ==> {
                &&& normal_part(platform, #[trigger] normal_parts(platform, parts)[i])
                &&& parts.contains(normal_parts(platform, parts)[i])
            },
    decreases parts.len(),
{
    if parts.len() > 0 {
        lemma_normal_parts(platform, parts.drop_last());
        let kept = normal_parts(platform, parts);
        let front = normal_parts(platform, parts.drop_last());
        assert forall|i: int| 0 <= i < kept.len() implies {
            &&& normal_part(platform, #[trigger] kept[i])
            &&& parts.contains(kept[i])
        } by {
            if i < front.len() {
                assert(kept[i] == front[i]);
                assert(parts.drop_last().contains(front[i]));
                let j = choose|j: int|
                    0 <= j < parts.drop_last().len() && parts.drop_last()[j] == front[i];
                assert(parts[j] == kept[i]);
            } else {
                assert(kept[i] == parts[parts.len() - 1]);
            }
        }
    }
}

/// A sanitized path stays below the directory it is joined to: it has at least
/// one part, each part names a file or a folder, and none holds a slash.
pub proof fn lemma_sanitized_stays_inside(relative_path: Seq<char>, platform: Platform)
    ensures
        sanitized(relative_path, platform).len() > 0,
        forall|i: int|
            0 <= i < sanitized(relative_path, platform).len() ==> {
                &&& normal_part(platform, #[trigger] sanitized(relative_path, platform)[i])
                &&& slash_free(sanitized(relative_path, platform)[i])
            },
{
    reveal_strlit("received-file");
    reveal_strlit(".");
    reveal_strlit("..");
    let s = forward_slashes(relative_path);
    let parts = split(s, '/');
    lemma_split_parts_slash_free(s);
    lemma_normal_parts(platform, parts);
    let kept = normal_parts(platform, parts);
    assert forall|i: int| 0 <= i < sanitized(relative_path, platform).len() implies {
        &&& normal_part(platform, #[trigger] sanitized(relative_path, platform)[i])
        &&& slash_free(sanitized(relative_path, platform)[i])
    } by {
        if kept.len() > 0 {
            assert(parts.contains(kept[i]));
            let j = choose|j: int| 0 <= j < parts.len() && parts[j] == kept[i];
            assert(slash_free(parts[j]));
        } else {
            assert("received-file"@.len() == 13);
            assert("received-file"@[1] == 'e');
        }
    }
}

proof fn lemma_split_tail(s: Seq<char>, tail: Seq<char>)
    requires
        forall|i: int| 0 <= i < tail.len() ==> #[trigger] tail[i] != '/',
    ensures
        split(s, '/').len() > 0,
        split(s + tail, '/') == split(s, '/').drop_last().push(split(s, '/').last() + tail),
    decreases tail.len(),
{
    let parts = split(s, '/');
    if tail.len() == 0 {
        assert(s + tail =~= s);
        lemma_split_nonempty(s);
        assert(parts.last() + tail =~= parts.last());
        assert(parts =~= parts.drop_last().push(parts.last()));
    } else {
        lemma_split_tail(s, tail.drop_last());
        assert((s + tail).drop_last() =~= s + tail.drop_last());
        assert((s + tail).last() == tail[tail.len() - 1]);
        let front = split(s + tail.drop_last(), '/');
        assert(front.drop_last() =~= parts.drop_last());
        assert(front.last().push(tail.last()) =~= parts.last() + tail);
    }
}

proof fn lemma_split_nonempty(s: Seq<char>)
    ensures
        split(s, '/').len() > 0,
    decreases s.len(),
{
    if s.len() > 0 {
        lemma_split_nonempty(s.drop_last());
    }
}

proof fn lemma_split_joined(parts: Seq<Seq<char>>)
    requires
        parts.len() > 0,
        forall|i: int| 0 <= i < parts.len() ==> slash_free(#[trigger] parts[i]),
    ensures
        split(joined(parts), '/') == parts,
        forall|i: int| 0 <= i < joined(parts).len() ==> #[trigger] joined(parts)[i] != '\\',
    decreases parts.len(),
{
    let last = parts.last();
    assert(slash_free(parts[parts.len() - 1]));
    if parts.len() == 1 {
        lemma_split_tail(Seq::empty(), last);
        assert(Seq::<char>::empty() + last =~= last);
        assert(split(Seq::<char>::empty(), '/') =~= seq![Seq::<char>::empty()]);
        assert(parts =~= seq![last]);
        assert(split(Seq::<char>::empty(), '/').drop_last().push(last) =~= parts);
    } else {
        let front = parts.drop_last();
        assert forall|i: int| 0 <= i < front.len() implies slash_free(#[trigger] front[i]) by {
            assert(front[i] == parts[i]);
        }
        lemma_split_joined(front);
        let s = joined(front) + seq!['/'];
        assert(s.drop_last() =~= joined(front));
        assert(s.last() == '/');
        assert(split(s, '/') == front.push(Seq::empty()));
        lemma_split_tail(s, last);
        assert(split(s, '/').drop_last() =~= front);
        assert(Seq::<char>::empty() + last =~= last);
        assert(front.push(last) =~= parts);
    }
}

/// Folder structure is preserved: a path whose parts all name files or folders
/// comes through sanitizing as it was.
pub proof fn lemma_sanitize_preserves_folders(parts: Seq<Seq<char>>, platform: Platform)
    requires
        parts.len() > 0,
        forall|i: int|
            0 <= i < parts.len() ==> normal_part(platform, #[trigger] parts[i]) && slash_free(
                parts[i],
            ),
    ensures
        sanitized(joined(parts), platform) == parts,
{
    lemma_split_joined(parts);
    assert(forward_slashes(joined(parts)) =~= joined(parts));
    lemma_all_normal(platform, parts);
}

proof fn lemma_all_normal(platform: Platform, parts: Seq<Seq<char>>)
    requires
        forall|i: int| 0 <= i < parts.len() ==> normal_part(platform, #[trigger] parts[i]),
    ensures
        normal_parts(platform, parts) == parts,
    decreases parts.len(),
{
    if parts.len() > 0 {
        assert(normal_part(platform, parts[parts.len() - 1]));
        assert forall|i: int| 0 <= i < parts.drop_last().len() implies normal_part(
            platform,
            #[trigger] parts.drop_last()[i],
        ) by {
            assert(normal_part(platform, parts[i]));
        }
        lemma_all_normal(platform, parts.drop_last());
        assert(parts.drop_last().push(parts.last()) =~= parts);
    }
}

/// A part before others is joined to them with a slash.
pub proof fn lemma_joined_front(first: Seq<char>, parts: Seq<Seq<char>>)
    requires
        parts.len() > 0,
    ensures
        joined(seq![first] + parts) == first + seq!['/'] + joined(parts),
    decreases parts.len(),
{
    let all = seq![first] + parts;
    assert(all.last() == parts.last());
    assert(all.drop_last() =~= seq![first] + parts.drop_last());
    if parts.len() == 1 {
        assert(parts.drop_last() =~= Seq::<Seq<char>>::empty());
        assert(all.drop_last() =~= seq![first]);
        assert(joined(all.drop_last()) == first);
        assert(joined(parts) == parts[0]);
        assert(joined(all) =~= first + seq!['/'] + joined(parts));
    } else {
        lemma_joined_front(first, parts.drop_last());
        assert(joined(all) =~= first + seq!['/'] + joined(parts));
    }
}

// ---------------------------------------------------------------------------
// Names that are not taken
// ---------------------------------------------------------------------------

/// Whether a text is one part of a path, which may lead to the directory above.
pub open spec fn one_part(s: Seq<char>) -> bool {
    s.len() > 0 && s != "."@ && slash_free(s)
}

/// Whether a text can be the name of a file.
pub open spec fn file_name_like(s: Seq<char>) -> bool {
    one_part(s) && s != ".."@
}

/// A file name without its extension. A dot at the start begins no extension.
/// A fixed name stands for the directory above.
pub open spec fn file_stem(name: Seq<char>) -> Seq<char> {
    if name == ".."@ {
        "file"@
    } else if last_position(name, '.') > 0 {
        name.take(last_position(name, '.'))
    } else {
        name
    }
}

/// What follows the last dot of a file name, unless that dot is at its start.
pub open spec fn extension(name: Seq<char>) -> Option<Seq<char>> {
    if last_position(name, '.') > 0 && name != ".."@ {
        Some(name.skip(last_position(name, '.') + 1))
    } else {
        None
    }
}

/// A file name with a number before its extension.
pub open spec fn numbered_name(name: Seq<char>, index: nat) -> Seq<char> {
    let numbered = file_stem(name) + " ("@ + decimal(index);
    match extension(name) {
        Some(e) => if e.len() > 0 {
            numbered + ")."@ + e
        } else {
            numbered + ")"@
        },
        None => numbered + ")"@,
    }
}

/// Puts a number before the extension of a file name.
pub fn number_name(name: &str, index: u64) -> (r: String)
    ensures
        r@ == numbered_name(name@, index as nat),
{
    if same_text(name, "..") {
        let mut r = "file (".to_owned();
        push_decimal(&mut r, index as u128);
        r.append(")");
        proof {
            reveal_strlit("file");
            reveal_strlit(" (");
            reveal_strlit("file (");
            assert("file"@ + " ("@ =~= "file ("@);
        }
        return r;
    }
    let chars = chars_of(name);
    let n: usize = chars.len();
    assert(chars@.take(n as int) =~= chars@);
    proof {
        lemma_last_position(name@, '.');
    }
    let (stem_end, extension_start): (usize, usize) = match find_last(&chars, n, '.') {
        Some(p) => if p > 0 {
            (p, p + 1)
        } else {
            (n, n)
        },
        None => (n, n),
    };
    let mut r = string_of(&chars, 0, stem_end);
    assert(r@ =~= file_stem(name@));
    r.append(" (");
    push_decimal(&mut r, index as u128);
    if extension_start < n {
        let e = string_of(&chars, extension_start, n);
        assert(e@ =~= name@.skip(extension_start as int));
        r.append(").");
        r.append(&e);
    } else {
        r.append(")");
    }
    r
}

impl RelativePath {
    /// A copy of this path with another file name.
    fn renamed(&self, name: String) -> (r: Self)
        ensures
            r@ == self@.drop_last().push(name@),
    {
        let r = RelativePath { folders: copy_texts(&self.folders), file_name: name };
        assert(self@.drop_last() =~= texts(self.folders@));
        r
    }
}

impl InboxPath {
    /// A copy of this path with another file name.
    pub fn with_file_name(&self, name: String) -> (r: Self)
        ensures
            r@ == self@.with_file_name(name@),
    {
        InboxPath { inbox: self.inbox.clone(), relative: self.relative.renamed(name) }
    }
}

impl Clone for InboxPath {
    fn clone(&self) -> (r: Self)
        ensures
            r@ == self@,
    {
        let r = self.with_file_name(self.relative.file_name.clone());
        assert(self@.parts.drop_last().push(self@.parts.last()) =~= self@.parts);
        r
    }
}

/// Whether `stat` may answer that the file at `path` has the length `len`, or,
/// with `None`, that there is no file.
pub open spec fn answered<F: Fn(&InboxPath) -> Option<u64>>(
    stat: F,
    path: InboxPathView,
    len: Option<u64>,
) -> bool {
    exists|p: InboxPath| p@ == path && #[trigger] stat.ensures((&p,), len)
}

/// Whether `stat` may answer that there is a file at `path`.
pub open spec fn taken<F: Fn(&InboxPath) -> Option<u64>>(stat: F, path: InboxPathView) -> bool {
    exists|len: u64| #[trigger] answered(stat, path, Some(len))
}

/// The path with a number before the extension of its file name.
pub open spec fn numbered(path: InboxPathView, index: nat) -> InboxPathView {
    path.with_file_name(numbered_name(path.file_name(), index))
}

/// Whether every numbered path below `index` was taken.
pub open spec fn taken_below<F: Fn(&InboxPath) -> Option<u64>>(
    stat: F,
    path: InboxPathView,
    index: nat,
) -> bool {
    forall|j: nat| 1 <= j < index ==> taken(stat, #[trigger] numbered(path, j))
}

/// What a search for a free path may come to: the path itself if it was free,
/// else the first numbered path that was, else, with all 9999 numbers taken,
/// the path itself.
pub open spec fn unique_outcome<F: Fn(&InboxPath) -> Option<u64>>(
    stat: F,
    path: InboxPathView,
    r: InboxPathView,
) -> bool {
    ||| answered(stat, path, None) && r == path
    ||| taken(stat, path) && exists|k: nat|
        1 <= k < 10_000 && r == #[trigger] numbered(path, k) && answered(
            stat,
            numbered(path, k),
            None,
        ) && taken_below(stat, path, k)
    ||| taken(stat, path) && taken_below(stat, path, 10_000) && r == path
}

/// Finds a path in the same folder at which there is no file.
///
/// `stat` looks a file up and gives its length.
pub fn unique_destination_path<F: Fn(&InboxPath) -> Option<u64>>(
    path: &InboxPath,
    stat: &F,
) -> (r: InboxPath)
    requires
        one_part(path@.file_name()),
        forall|p: InboxPath| stat.requires((&p,)),
    ensures
        unique_outcome(*stat, path@, r@),
{
    match stat(path) {
        None => {
            assert(answered(*stat, path@, None));
            return path.clone();
        },
        Some(len) => {
            assert(answered(*stat, path@, Some(len)));
        },
    }
    let mut index: u64 = 1;
    while index < 10_000
        invariant
            1 <= index <= 10_000,
            taken(*stat, path@),
            forall|p: InboxPath| stat.requires((&p,)),
            taken_below(*stat, path@, index as nat),
        decreases 10_000 - index,
    {
        let candidate = path.with_file_name(number_name(&path.relative.file_name, index));
        assert(candidate@ == numbered(path@, index as nat));
        match stat(&candidate) {
            None => {
                assert(answered(*stat, candidate@, None));
                return candidate;
            },
            Some(len) => {
                assert(answered(*stat, candidate@, Some(len)));
            },
        }
        index = index + 1;
    }
    path.clone()
}

/// The name of the file in which an unfinished transfer of a file is kept.
pub open spec fn temp_name(file_name: Seq<char>, transfer_id: Seq<char>) -> Seq<char> {
    file_name + "."@ + transfer_id + ".part"@
}

/// The path at which the unfinished part of a file is kept: beside the file,
/// or, for a path that leads to the directory above, in that directory.
pub open spec fn temp_path(final_path: InboxPathView, transfer_id: Seq<char>) -> InboxPathView {
    if final_path.file_name() == ".."@ {
        InboxPathView {
            parts: final_path.parts.push(temp_name("received-file"@, transfer_id)),
            ..final_path
        }
    } else {
        final_path.with_file_name(temp_name(final_path.file_name(), transfer_id))
    }
}

/// The path at which an unfinished transfer is kept.
pub fn temp_path_for(final_path: &InboxPath, transfer_id: &str) -> (r: InboxPath)
    requires
        one_part(final_path@.file_name()),
    ensures
        r@ == temp_path(final_path@, transfer_id@),
{
    let above: bool = same_text(&final_path.relative.file_name, "..");
    let mut name = if above {
        "received-file".to_owned()
    } else {
        final_path.relative.file_name.clone()
    };
    name.append(".");
    name.append(transfer_id);
    name.append(".part");
    if above {
        let mut folders = copy_texts(&final_path.relative.folders);
        let ghost before = folders@;
        folders.push("..".to_owned());
        assert(texts(folders@) =~= texts(before).push(".."@));
        InboxPath {
            inbox: final_path.inbox.clone(),
            relative: RelativePath { folders, file_name: name },
        }
    } else {
        final_path.with_file_name(name)
    }
}

// ---------------------------------------------------------------------------
// What sanitizing and numbering are for
// ---------------------------------------------------------------------------

/// Whether a part of a path is kept: it is neither empty nor `.` nor `..`, and
/// on Windows does not begin with a letter and a colon.
pub open spec fn kept_part(platform: Platform, part: Seq<char>) -> bool {
    &&& part.len() > 0
    &&& !(part.len() == 1 && part[0] == '.')
    &&& !(part.len() == 2 && part[0] == '.' && part[1] == '.')
    &&& !(platform == Platform::Windows && part.len() >= 2 && part[1] == ':' && ('a' <= part[0]
        <= 'z' || 'A' <= part[0] <= 'Z'))
}

proof fn lemma_letter(c: char)
    ensures
        (65 <= c as nat <= 90 || 97 <= c as nat <= 122) == ('a' <= c <= 'z' || 'A' <= c <= 'Z'),
{
}

proof fn lemma_kept_part(platform: Platform, part: Seq<char>)
    ensures
        kept_part(platform, part) == normal_part(platform, part),
{
    reveal_strlit(".");
    reveal_strlit("..");
    if part.len() > 0 {
        lemma_letter(part[0]);
    }
    if part.len() == 1 && part[0] == '.' {
        assert(part =~= "."@);
    }
    if part.len() == 2 && part[0] == '.' && part[1] == '.' {
        assert(part =~= ".."@);
    }
}

/// Every part of a path that is not empty, not `.`, not `..`, has no slash and
/// does not begin with a letter and a colon is kept by sanitizing, in its place
/// and unchanged, on every platform. Outside Windows a letter and a colon at the
/// beginning do not matter either.
pub proof fn lemma_ordinary_parts_are_kept(parts: Seq<Seq<char>>, platform: Platform)
    requires
        parts.len() > 0,
        forall|i: int|
            #![trigger parts[i]]
            0 <= i < parts.len() ==> {
                &&& parts[i].len() > 0
                &&& parts[i] != seq!['.']
                &&& parts[i] != seq!['.', '.']
                &&& forall|j: int|
                    0 <= j < parts[i].len() ==> #[trigger] parts[i][j] != '/' && parts[i][j] != '\\'
                &&& platform != Platform::Windows || parts[i].len() < 2 || parts[i][1] != ':' || !(
                'a' <= parts[i][0] <= 'z' || 'A' <= parts[i][0] <= 'Z')
            },
    ensures
        sanitized(joined(parts), platform) == parts,
{
    assert forall|i: int| 0 <= i < parts.len() implies normal_part(platform, #[trigger] parts[i])
        && slash_free(parts[i]) by {
        lemma_kept_part(platform, parts[i]);
        if parts[i].len() == 1 && parts[i][0] == '.' {
            assert(parts[i] =~= seq!['.']);
        }
        if parts[i].len() == 2 && parts[i][0] == '.' && parts[i][1] == '.' {
            assert(parts[i] =~= seq!['.', '.']);
        }
    }
    lemma_sanitize_preserves_folders(parts, platform);
}

proof fn lemma_normal_parts_filter(platform: Platform, parts: Seq<Seq<char>>)
    ensures
        normal_parts(platform, parts) == parts.filter(|p: Seq<char>| kept_part(platform, p)),
    decreases parts.len(),
{
    reveal(Seq::filter);
    if parts.len() > 0 {
        lemma_normal_parts_filter(platform, parts.drop_last());
        lemma_kept_part(platform, parts.last());
    } else {
        assert(parts =~= Seq::<Seq<char>>::empty());
    }
}

/// Splitting a text at slashes and joining the parts gives the text back, and
/// no part holds a slash.
pub proof fn lemma_split_and_join(s: Seq<char>)
    ensures
        split(s, '/').len() > 0,
        joined(split(s, '/')) == s,
        forall|i: int, j: int|
            0 <= i < split(s, '/').len() && 0 <= j < split(s, '/')[i].len() ==> #[trigger] split(
                s,
                '/',
            )[i][j] != '/',
    decreases s.len(),
{
    let parts = split(s, '/');
    if s.len() > 0 {
        let front = split(s.drop_last(), '/');
        lemma_split_and_join(s.drop_last());
        assert(s.drop_last().push(s.last()) =~= s);
        if s.last() == '/' {
            assert(parts.drop_last() =~= front);
            assert(joined(parts) =~= s.drop_last() + seq!['/'] + Seq::<char>::empty());
            assert forall|i: int, j: int|
                0 <= i < parts.len() && 0 <= j < parts[i].len() implies #[trigger] parts[i][j]
                != '/' by {
                assert(parts[i] == front[i]);
                assert(front[i][j] != '/');
            }
        } else {
            assert(parts.drop_last() =~= front.drop_last());
            assert(parts.last() == front.last().push(s.last()));
            if parts.len() == 1 {
                assert(joined(parts) =~= front[0].push(s.last()));
            } else {
                assert(joined(front) == joined(front.drop_last()) + seq!['/'] + front.last());
                assert(joined(parts) =~= joined(front).push(s.last()));
            }
            assert forall|i: int, j: int|
                0 <= i < parts.len() && 0 <= j < parts[i].len() implies #[trigger] parts[i][j]
                != '/' by {
                if i < parts.len() - 1 {
                    assert(parts[i] == front[i]);
                    assert(front[i][j] != '/');
                } else if j < front.last().len() {
                    assert(front[i][j] != '/');
                }
            }
        }
    } else {
        assert(s =~= Seq::<char>::empty());
    }
}

/// What sanitizing makes of any text: of the parts between its slashes, of
/// either kind, those that are kept, in their order, or one fixed name.
pub proof fn lemma_sanitized_is_what_is_kept(relative_path: Seq<char>, platform: Platform)
    ensures
        ({
            let parts = split(forward_slashes(relative_path), '/');
            let kept = parts.filter(|p: Seq<char>| kept_part(platform, p));
            sanitized(relative_path, platform) == (if kept.len() > 0 {
                kept
            } else {
                seq!["received-file"@]
            })
        }),
{
    lemma_normal_parts_filter(platform, split(forward_slashes(relative_path), '/'));
}

/// A number goes before the extension of a file name: before the last dot, if
/// something stands before and after it, else at the end. A dot at the end of
/// the name goes.
pub proof fn lemma_numbered_names(stem: Seq<char>, ext: Seq<char>, index: nat)
    requires
        stem.len() > 0,
        !ext.contains('.'),
    ensures
        ext.len() > 0 ==> numbered_name(stem + seq!['.'] + ext, index) == stem + " ("@ + decimal(
            index,
        ) + ")."@ + ext,
        stem != seq!['.'] ==> numbered_name(stem + seq!['.'], index) == stem + " ("@ + decimal(
            index,
        ) + ")"@,
        !stem.contains('.') ==> numbered_name(stem, index) == stem + " ("@ + decimal(index) + ")"@,
        ext.len() > 0 ==> numbered_name(seq!['.'] + ext, index) == seq!['.'] + ext + " ("@ + decimal(
            index,
        ) + ")"@,
{
    reveal_strlit("..");
    let n = stem.len() as int;
    // A name with an extension.
    let a = stem + seq!['.'] + ext;
    lemma_last_position(a, '.');
    assert(a[n] == '.');
    assert forall|i: int| n < i < a.len() implies a[i] != '.' by {
        assert(a[i] == ext[i - n - 1]);
        assert(ext.contains(ext[i - n - 1]));
    }
    assert(last_position(a, '.') == n);
    assert(a.take(n) =~= stem);
    assert(a.skip(n + 1) =~= ext);
    if ext.len() > 0 {
        assert(a.len() == n + 1 + ext.len());
        assert(a != ".."@) by {
            if a == ".."@ {
                assert(a.len() == 2);
            }
        }
    }
    // A name that ends with a dot.
    let b = stem + seq!['.'];
    lemma_last_position(b, '.');
    assert(b[n] == '.');
    assert(last_position(b, '.') == n);
    assert(b.take(n) =~= stem);
    assert(b.skip(n + 1) =~= Seq::<char>::empty());
    if stem != seq!['.'] {
        if b == ".."@ {
            assert(stem[0] == b[0]);
            assert(stem =~= seq!['.']);
        }
    }
    // A name without a dot.
    lemma_last_position(stem, '.');
    if !stem.contains('.') {
        if last_position(stem, '.') >= 0 {
            assert(stem.contains(stem[last_position(stem, '.')]));
        }
        if stem == ".."@ {
            assert(stem[0] == '.');
            assert(stem.contains(stem[0]));
        }
    }
    // A name that begins with its only dot.
    let d = seq!['.'] + ext;
    lemma_last_position(d, '.');
    assert(d[0] == '.');
    assert forall|i: int| 0 < i < d.len() implies d[i] != '.' by {
        assert(d[i] == ext[i - 1]);
        assert(ext.contains(ext[i - 1]));
    }
    assert(last_position(d, '.') == 0);
    if ext.len() > 0 && d == ".."@ {
        assert(d[1] == '.');
    }
}

/// A numbered path differs from the path in its last part only, which gets the
/// number.
pub proof fn lemma_numbered_paths(path: InboxPathView, index: nat)
    requires
        path.parts.len() > 0,
    ensures
        numbered(path, index).inbox == path.inbox,
        numbered(path, index).parts == path.parts.drop_last().push(
            numbered_name(path.parts[path.parts.len() - 1], index),
        ),
{
}

/// The unfinished part of a file is kept in the same folder, under the name of
/// the file, a dot, the id of the transfer, and `.part`.
pub proof fn lemma_temp_path(path: InboxPathView, transfer_id: Seq<char>)
    requires
        path.parts.len() > 0,
        path.parts[path.parts.len() - 1] != seq!['.', '.'],
    ensures
        temp_path(path, transfer_id).inbox == path.inbox,
        temp_path(path, transfer_id).parts == path.parts.drop_last().push(
            path.parts[path.parts.len() - 1] + "."@ + transfer_id + ".part"@,
        ),
{
    reveal_strlit("..");
    assert(".."@ =~= seq!['.', '.']);
}

/// A path whose parts are all kept and hold no slash comes through sanitizing as
/// it was.
pub proof fn lemma_kept_parts_are_kept(parts: Seq<Seq<char>>, platform: Platform)
    requires
        parts.len() > 0,
        forall|i: int|
            0 <= i < parts.len() ==> kept_part(platform, #[trigger] parts[i]) && slash_free(
                parts[i],
            ),
    ensures
        sanitized(joined(parts), platform) == parts,
{
    assert forall|i: int| 0 <= i < parts.len() implies normal_part(platform, #[trigger] parts[i])
        && slash_free(parts[i]) by {
        lemma_kept_part(platform, parts[i]);
    }
    lemma_sanitize_preserves_folders(parts, platform);
}

/// Parts without a slash are joined with slashes only.
pub proof fn lemma_joined_has_no_backslash(parts: Seq<Seq<char>>)
    requires
        parts.len() > 0,
        forall|i: int| 0 <= i < parts.len() ==> slash_free(#[trigger] parts[i]),
    ensures
        forall|c: int| 0 <= c < joined(parts).len() ==> #[trigger] joined(parts)[c] != '\\',
{
    lemma_split_joined(parts);
}

/// Parts are joined with one slash between each two.
pub proof fn lemma_joined(parts: Seq<Seq<char>>, part: Seq<char>)
    ensures
        joined(seq![part]) == part,
        parts.len() > 0 ==> joined(parts.push(part)) == joined(parts) + seq!['/'] + part,
{
    if parts.len() > 0 {
        assert(parts.push(part).drop_last() =~= parts);
    }
}

/// A path that leads to the directory above gets fixed names.
pub proof fn lemma_names_above(path: InboxPathView, transfer_id: Seq<char>, index: nat)
    requires
        path.parts.len() > 0,
        path.parts[path.parts.len() - 1] == seq!['.', '.'],
    ensures
        numbered_name(seq!['.', '.'], index) == "file"@ + " ("@ + decimal(index) + ")"@,
        temp_path(path, transfer_id).inbox == path.inbox,
        temp_path(path, transfer_id).parts == path.parts.push(
            "received-file"@ + "."@ + transfer_id + ".part"@,
        ),
{
    reveal_strlit("..");
    assert(".."@ =~= seq!['.', '.']);
}

/// The view of a path has the inbox, the folders in order, and the file name.
pub proof fn lemma_path_view(p: InboxPath)
    ensures
        p@.inbox == p.inbox@,
        p@.parts.len() == p.relative.folders.len() + 1,
        forall|i: int|
            0 <= i < p.relative.folders.len() ==> #[trigger] p@.parts[i]
                == p.relative.folders[i]@,
        p@.parts[p@.parts.len() - 1] == p.relative.file_name@,
        p@.file_name() == p.relative.file_name@,
{
}

} // verus!
