//! Sending files: the request, and how a transfer proceeds.

use crate::model::{
    local_files, manifests, Config, ConfigView, FileManifest, LocalFileEntry, LocalFileView,
    ManifestView, RequestView, ResponseView, TransferRequest, TransferResponse, TransferView,
    APP_PROTOCOL,
};
use crate::progress::{patched, TransferPatch};
use crate::resume::{
    checked_resumed, file_sizes, lemma_resumed_and_outstanding, normalized, normalized_offsets,
    outstanding, outstanding_from, resumed, sizes_of_files, total_size,
};
use vstd::prelude::*;

verus! {

/// What the receiver is told of a file.
pub open spec fn manifest_of(f: LocalFileView) -> ManifestView {
    ManifestView { relative_path: f.relative_path, size: f.size }
}

/// What the receiver is told of the files.
pub open spec fn manifests_of(files: Seq<LocalFileView>) -> Seq<ManifestView> {
    files.map_values(|f: LocalFileView| manifest_of(f))
}

/// The request for a transfer.
pub open spec fn request_for(
    transfer_id: Seq<char>,
    config: ConfigView,
    files: Seq<LocalFileView>,
    total_bytes: u64,
    version: Seq<char>,
) -> RequestView {
    RequestView {
        protocol: APP_PROTOCOL@,
        version,
        transfer_id,
        sender_id: config.device_id,
        sender_name: config.device_name,
        file_count: files.len() as usize,
        total_bytes,
        files: manifests_of(files),
    }
}

/// Makes the request for a transfer.
pub fn transfer_request(
    transfer_id: &str,
    config: &Config,
    files: &Vec<LocalFileEntry>,
    total_bytes: u64,
    version: &str,
) -> (r: TransferRequest)
    ensures
        r@ == request_for(transfer_id@, config@, local_files(files@), total_bytes, version@),
{
    let mut list: Vec<FileManifest> = Vec::new();
    for i in 0..files.len()
        invariant
            list.len() == i,
            forall|k: int|
                0 <= k < i ==> (#[trigger] list[k])@ == manifest_of(local_files(files@)[k]),
    {
        list.push(
            FileManifest { relative_path: files[i].relative_path.clone(), size: files[i].size },
        );
    }
    assert(manifests(list@) =~= manifests_of(local_files(files@)));
    TransferRequest {
        protocol: APP_PROTOCOL.to_owned(),
        version: version.to_owned(),
        transfer_id: transfer_id.to_owned(),
        sender_id: config.device_id.clone(),
        sender_name: config.device_name.clone(),
        file_count: files.len(),
        total_bytes,
        files: list,
    }
}

/// What the user is told where the receiver refuses.
pub open spec fn refusal_text(response: ResponseView) -> Seq<char> {
    match response.message {
        Some(message) => message,
        None => "接收端拒绝了这次传输"@,
    }
}

/// A file of which something is to be sent, and from where on.
#[derive(Debug, Clone, Copy, PartialEq, Eq, Structural)]
pub struct SendJob {
    pub index: usize,
    pub offset: u64,
}

/// A transfer that is being sent.
#[derive(Debug)]
pub struct SendSession {
    pub files: Vec<LocalFileEntry>,
    pub total_bytes: u64,
    pub offsets: Vec<u64>,
    pub index: usize,
    pub bytes_done: u64,
}

/// The view of a [`SendSession`].
#[verifier::ext_equal]
pub struct SendView {
    pub files: Seq<LocalFileView>,
    pub total_bytes: u64,
    pub offsets: Seq<u64>,
    pub index: nat,
    pub bytes_done: u64,
}

impl View for SendSession {
    type V = SendView;

    open spec fn view(&self) -> SendView {
        SendView {
            files: local_files(self.files@),
            total_bytes: self.total_bytes,
            offsets: self.offsets@,
            index: self.index as nat,
            bytes_done: self.bytes_done,
        }
    }
}

impl SendView {
    /// There is an offset for each file.
    pub open spec fn wf(self) -> bool {
        self.offsets.len() == self.files.len() && self.index <= self.files.len()
    }

    /// The start of a transfer whose receiver gave these offsets.
    pub open spec fn started(
        files: Seq<LocalFileView>,
        total_bytes: u64,
        offsets: Seq<u64>,
    ) -> Self {
        SendView {
            files,
            total_bytes,
            offsets: normalized(offsets, files.len()),
            index: 0,
            bytes_done: resumed(normalized(offsets, files.len()), file_sizes(files)) as u64,
        }
    }

    /// Whether something is to be sent of a file.
    pub open spec fn needs(self, i: int) -> bool {
        outstanding(self.offsets[i], self.files[i].size) > 0
    }

    /// The next file from `i` on of which something is to be sent, or the number
    /// of files.
    pub open spec fn next_needed(self, i: nat) -> nat
        decreases self.files.len() - i,
    {
        if i >= self.files.len() {
            self.files.len()
        } else if self.needs(i as int) {
            i
        } else {
            self.next_needed(i + 1)
        }
    }

    /// What is to be sent of the next file of which something is to be sent.
    pub open spec fn next_outstanding(self) -> nat {
        let i = self.next_needed(self.index);
        if i < self.files.len() {
            outstanding(self.offsets[i as int], self.files[i as int].size)
        } else {
            0
        }
    }

    /// The transfer after it went on to the next file of which something is to
    /// be sent, or past the last file.
    pub open spec fn gone_on(self) -> Self {
        let i = self.next_needed(self.index);
        SendView {
            index: if i < self.files.len() {
                i + 1
            } else {
                self.files.len()
            },
            ..self
        }
    }

    /// The transfer after some more bytes were sent.
    pub open spec fn with_sent(self, n: nat) -> Self {
        SendView { bytes_done: (self.bytes_done + n) as u64, ..self }
    }
}

impl SendSession {
    /// There is an offset for each file.
    pub open spec fn wf(&self) -> bool {
        self@.wf()
    }

    /// Starts to send after the receiver has answered. A refusal is an error.
    pub fn start(
        files: Vec<LocalFileEntry>,
        total_bytes: u64,
        response: &TransferResponse,
    ) -> (r: Result<SendSession, String>)
        requires
            response.accepted ==> resumed(
                normalized(response@.offsets, files@.len()),
                file_sizes(local_files(files@)),
            ) <= u64::MAX,
        ensures
            match r {
                Ok(session) => {
                    &&& response.accepted
                    &&& session.wf()
                    &&& session@ == SendView::started(
                        local_files(files@),
                        total_bytes,
                        response@.offsets,
                    )
                },
                Err(e) => {
                    &&& !response.accepted
                    &&& e@ == refusal_text(response@)
                },
            },
    {
        if !response.accepted {
            return match &response.message {
                Some(message) => Err(message.clone()),
                None => Err("接收端拒绝了这次传输".to_owned()),
            };
        }
        let offsets = normalized_offsets(response.offsets.as_slice(), files.len());
        let sizes = sizes_of_files(&files);
        let bytes_done: u64 = match checked_resumed(&offsets, &sizes) {
            Some(n) => n,
            None => 0,
        };
        Ok(SendSession { files, total_bytes, offsets, index: 0, bytes_done })
    }

    /// Goes on to the next file of which something is to be sent.
    pub fn next_file(&mut self) -> (r: Option<SendJob>)
        requires
            old(self).wf(),
        ensures
            final(self).wf(),
            final(self)@ == old(self)@.gone_on(),
            ({
                let i = old(self)@.next_needed(old(self)@.index);
                if i < old(self)@.files.len() {
                    r == Some(SendJob { index: i as usize, offset: old(self)@.offsets[i as int] })
                } else {
                    r is None
                }
            }),
    {
        let ghost before = self@;
        while self.index < self.files.len()
            invariant
                self.wf(),
                before == old(self)@,
                before.wf(),
                self@ == (SendView { index: self.index as nat, ..before }),
                before.next_needed(before.index) == before.next_needed(self.index as nat),
            decreases self.files.len() - self.index,
        {
            let i: usize = self.index;
            assert(before.files[i as int].size == self.files[i as int].size);
            self.index = i + 1;
            if self.offsets[i] < self.files[i].size {
                return Some(SendJob { index: i, offset: self.offsets[i] });
            }
        }
        None
    }

    /// The step with which the transfer begins.
    pub fn begun(&self) -> (r: TransferPatch)
        ensures
            r == (TransferPatch::Sending { bytes_done: self@.bytes_done }),
    {
        TransferPatch::Sending { bytes_done: self.bytes_done }
    }

    /// The step with which a file is begun.
    pub fn file_begun(&self, job: &SendJob) -> (r: TransferPatch)
        requires
            job.index < self@.files.len(),
        ensures
            r matches TransferPatch::SendingFile { name } && name@
                == self@.files[job.index as int].relative_path,
    {
        assert(self@.files[job.index as int] == self.files[job.index as int]@);
        TransferPatch::SendingFile { name: self.files[job.index].relative_path.clone() }
    }

    /// Counts bytes that were read from the current file as sent. With none the
    /// file is at its end, and there is no step.
    pub fn sent(&mut self, n: u64) -> (r: Option<TransferPatch>)
        requires
            old(self)@.bytes_done + n <= u64::MAX,
        ensures
            final(self)@ == old(self)@.with_sent(n as nat),
            r == (if n > 0 {
                Some(TransferPatch::BytesDone { bytes_done: final(self)@.bytes_done })
            } else {
                None
            }),
    {
        if n == 0 {
            return None;
        }
        self.bytes_done = self.bytes_done + n;
        Some(TransferPatch::BytesDone { bytes_done: self.bytes_done })
    }

    /// The last step of the transfer.
    pub fn finished(&self) -> (r: TransferPatch)
        ensures
            r == (TransferPatch::Sent { total_bytes: self@.total_bytes }),
    {
        TransferPatch::Sent { total_bytes: self.total_bytes }
    }
}

/// Whether what is there, what is left of the current file and what is
/// outstanding of the files after it make up all files.
pub open spec fn sending_accounted(v: SendView, left: nat) -> bool {
    v.bytes_done + left + outstanding_from(v.offsets, file_sizes(v.files), v.index) == total_size(
        file_sizes(v.files),
    )
}

/// Progress is true at every moment: at the start, after going on to the next
/// file, and after any part of what is left of the current file was sent, what
/// is there, what is left of the current file and what is outstanding of the
/// files after it make up all files. At the end all is there.
pub proof fn lemma_sending_is_accounted(
    files: Seq<LocalFileView>,
    total_bytes: u64,
    offsets: Seq<u64>,
    v: SendView,
    left: nat,
    n: nat,
)
    requires
        total_size(file_sizes(files)) <= u64::MAX,
        v.wf(),
        sending_accounted(v, left),
        total_size(file_sizes(v.files)) <= u64::MAX,
        n <= left,
    ensures
        sending_accounted(SendView::started(files, total_bytes, offsets), 0),
        left == 0 ==> sending_accounted(v.gone_on(), v.next_outstanding()),
        v.with_sent(n).bytes_done == v.bytes_done + n,
        sending_accounted(v.with_sent(n), (left - n) as nat),
        left == 0 && v.next_needed(v.index) == v.files.len() ==> v.bytes_done == total_size(
            file_sizes(v.files),
        ),
{
    lemma_resumed_and_outstanding(normalized(offsets, files.len()), file_sizes(files));
    lemma_next_needed(v, v.index);
    let i = v.next_needed(v.index);
    if i < v.files.len() {
        assert(file_sizes(v.files)[i as int] == v.files[i as int].size);
    }
}

/// A transfer after every file was sent from its offset to its end.
pub open spec fn all_sent(v: SendView) -> SendView
    decreases v.files.len() - v.index,
{
    let i = v.next_needed(v.index);
    if v.index >= v.files.len() || i >= v.files.len() || i < v.index {
        SendView { index: v.files.len(), ..v }
    } else {
        all_sent(
            SendView { index: i + 1, ..v }.with_sent(
                outstanding(v.offsets[i as int], v.files[i as int].size),
            ),
        )
    }
}

/// The next file of which something is to be sent is not before the one from
/// which on it is looked for, and nothing is outstanding of those between.
pub proof fn lemma_next_needed(v: SendView, i: nat)
    requires
        v.wf(),
        i <= v.files.len(),
    ensures
        i <= v.next_needed(i) <= v.files.len(),
        v.next_needed(i) < v.files.len() ==> v.needs(v.next_needed(i) as int),
        outstanding_from(v.offsets, file_sizes(v.files), i) == outstanding_from(
            v.offsets,
            file_sizes(v.files),
            v.next_needed(i),
        ),
    decreases v.files.len() - i,
{
    if i < v.files.len() && !v.needs(i as int) {
        lemma_next_needed(v, i + 1);
        assert(file_sizes(v.files)[i as int] == v.files[i as int].size);
    }
}

proof fn lemma_all_sent(v: SendView)
    requires
        v.wf(),
        v.bytes_done + outstanding_from(v.offsets, file_sizes(v.files), v.index) <= u64::MAX,
    ensures
        all_sent(v).bytes_done == v.bytes_done + outstanding_from(
            v.offsets,
            file_sizes(v.files),
            v.index,
        ),
    decreases v.files.len() - v.index,
{
    lemma_next_needed(v, v.index);
    let i = v.next_needed(v.index);
    if i < v.files.len() {
        assert(file_sizes(v.files)[i as int] == v.files[i as int].size);
        lemma_all_sent(
            SendView { index: i + 1, ..v }.with_sent(
                outstanding(v.offsets[i as int], v.files[i as int].size),
            ),
        );
    }
}

/// A transfer whose files are all sent to their ends has sent all bytes, those
/// that the receiver already had included.
pub proof fn lemma_all_sent_is_total(
    files: Seq<LocalFileView>,
    total_bytes: u64,
    offsets: Seq<u64>,
)
    requires
        total_size(file_sizes(files)) <= u64::MAX,
    ensures
        all_sent(SendView::started(files, total_bytes, offsets)).bytes_done == total_size(
            file_sizes(files),
        ),
{
    let all = normalized(offsets, files.len());
    lemma_resumed_and_outstanding(all, file_sizes(files));
    lemma_all_sent(SendView::started(files, total_bytes, offsets));
}

// ---------------------------------------------------------------------------
// What sending is for
// ---------------------------------------------------------------------------

/// A request tells who sends, under which id, and of every file, in order, its
/// path and its size.
pub proof fn lemma_request_tells_all(
    transfer_id: Seq<char>,
    config: ConfigView,
    files: Seq<LocalFileView>,
    total_bytes: u64,
    version: Seq<char>,
)
    requires
        files.len() <= usize::MAX,
    ensures
        ({
            let r = request_for(transfer_id, config, files, total_bytes, version);
            &&& r.protocol == "pc-sharer-v2"@
            &&& r.version == version
            &&& r.transfer_id == transfer_id
            &&& r.sender_id == config.device_id
            &&& r.sender_name == config.device_name
            &&& r.file_count == files.len()
            &&& r.total_bytes == total_bytes
            &&& r.files.len() == files.len()
            &&& forall|i: int|
                0 <= i < files.len() ==> (#[trigger] r.files[i]).relative_path
                    == files[i].relative_path && r.files[i].size == files[i].size
        }),
{
}

/// The user is told what the receiver says, or that it refused.
pub proof fn lemma_refusal_text(response: ResponseView)
    ensures
        response.message matches Some(message) ==> refusal_text(response) == message,
        response.message is None ==> refusal_text(response) == "接收端拒绝了这次传输"@,
{
}

/// A sender goes on to the next file of which the receiver does not have all,
/// passes those of which it has all, and passes no other.
pub proof fn lemma_sender_goes_on(v: SendView)
    requires
        v.wf(),
    ensures
        ({
            let i = v.next_needed(v.index);
            &&& v.index <= i <= v.files.len()
            &&& i < v.files.len() ==> v.offsets[i as int] < v.files[i as int].size
            &&& forall|k: int|
                v.index <= k < i ==> (#[trigger] v.offsets[k]) >= v.files[k].size
            &&& i < v.files.len() ==> v.gone_on() == (SendView { index: i + 1, ..v })
            &&& i == v.files.len() ==> v.gone_on() == (SendView { index: i, ..v })
            &&& i < v.files.len() ==> v.next_outstanding() == v.files[i as int].size
                - v.offsets[i as int]
            &&& i == v.files.len() ==> v.next_outstanding() == 0
        }),
{
    lemma_next_needed(v, v.index);
    lemma_passed_files(v, v.index);
}

proof fn lemma_passed_files(v: SendView, from: nat)
    requires
        v.wf(),
        from <= v.files.len(),
    ensures
        forall|k: int|
            from <= k < v.next_needed(from) ==> (#[trigger] v.offsets[k]) >= v.files[k].size,
    decreases v.files.len() - from,
{
    if from < v.files.len() && !v.needs(from as int) {
        lemma_passed_files(v, from + 1);
    }
}

/// A transfer starts before its first file, with one offset for each file, and
/// with what the receiver has.
pub proof fn lemma_sending_starts(
    files: Seq<LocalFileView>,
    total_bytes: u64,
    offsets: Seq<u64>,
    n: nat,
)
    requires
        total_size(file_sizes(files)) <= u64::MAX,
        offsets.len() == files.len(),
    ensures
        ({
            let v = SendView::started(files, total_bytes, offsets);
            &&& v.files == files
            &&& v.total_bytes == total_bytes
            &&& v.offsets == offsets
            &&& v.index == 0
            &&& v.bytes_done == resumed(offsets, file_sizes(files))
            &&& v.bytes_done + n <= u64::MAX ==> v.with_sent(n).bytes_done == v.bytes_done + n
            &&& v.with_sent(n).index == v.index
        }),
{
    assert(normalized(offsets, files.len()) =~= offsets);
    lemma_resumed_and_outstanding(offsets, file_sizes(files));
}

/// The record of a transfer that is sent shows the bytes that are there at every
/// moment, and the number never goes down: not when the transfer begins, not
/// with a file that begins, not with bytes that were sent, and not at the end,
/// where it is the sum of all sizes.
pub proof fn lemma_sent_bytes_never_go_down(
    v: SendView,
    left: nat,
    n: nat,
    t: TransferView,
    name: String,
)
    requires
        v.wf(),
        sending_accounted(v, left),
        v.total_bytes == total_size(file_sizes(v.files)),
        n <= left,
        t.bytes_done == v.bytes_done,
    ensures
        patched(t, TransferPatch::Sending { bytes_done: v.bytes_done }).bytes_done
            == v.bytes_done,
        patched(t, TransferPatch::SendingFile { name }).bytes_done == v.gone_on().bytes_done,
        v.gone_on().bytes_done == t.bytes_done,
        ({
            let bytes_done = v.with_sent(n).bytes_done;
            let r = patched(t, TransferPatch::BytesDone { bytes_done });
            &&& r.bytes_done == t.bytes_done + n
            &&& r.bytes_done <= v.total_bytes
        }),
        ({
            let r = patched(t, TransferPatch::Sent { total_bytes: v.total_bytes });
            &&& r.bytes_done >= t.bytes_done
            &&& r.bytes_done == total_size(file_sizes(v.files))
            &&& r.status is Completed
        }),
{
}

/// The view of a transfer that is sent has every field.
pub proof fn lemma_send_view(s: SendSession)
    ensures
        s@.files.len() == s.files.len(),
        forall|i: int| 0 <= i < s.files.len() ==> #[trigger] s@.files[i] == s.files[i]@,
        s@.total_bytes == s.total_bytes,
        s@.offsets == s.offsets@,
        s@.index == s.index,
        s@.bytes_done == s.bytes_done,
{
}

} // verus!
