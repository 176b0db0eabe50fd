//! How far the files of a transfer have come: what was resumed, and what is
//! still outstanding.

use crate::model::{local_files, manifests, FileManifest, LocalFileEntry, LocalFileView,
    ManifestView};
use vstd::prelude::*;

verus! {

/// The smaller of two numbers of bytes.
pub open spec fn least(a: u64, b: u64) -> u64 {
    if a <= b {
        a
    } else {
        b
    }
}

/// The sum of all sizes.
pub open spec fn total_size(sizes: Seq<u64>) -> nat
    decreases sizes.len(),
{
    if sizes.len() == 0 {
        0
    } else {
        total_size(sizes.drop_last()) + sizes.last() as nat
    }
}

/// What is already there of the first `n` files.
pub open spec fn resumed_up_to(offsets: Seq<u64>, sizes: Seq<u64>, n: nat) -> nat
    decreases n,
{
    if n == 0 {
        0
    } else {
        resumed_up_to(offsets, sizes, (n - 1) as nat) + least(offsets[n - 1], sizes[n - 1]) as nat
    }
}

/// What is already there: of each file that has an offset, the part before the
/// offset.
pub open spec fn resumed(offsets: Seq<u64>, sizes: Seq<u64>) -> nat {
    resumed_up_to(
        offsets,
        sizes,
        if offsets.len() <= sizes.len() {
            offsets.len()
        } else {
            sizes.len()
        },
    )
}

/// What is still to be sent of a file.
pub open spec fn outstanding(offset: u64, size: u64) -> nat {
    (size - least(offset, size)) as nat
}

/// What is still to be sent of the files from `from` on.
pub open spec fn outstanding_from(offsets: Seq<u64>, sizes: Seq<u64>, from: nat) -> nat
    decreases sizes.len() - from,
{
    if from >= sizes.len() {
        0
    } else {
        outstanding(offsets[from as int], sizes[from as int]) + outstanding_from(
            offsets,
            sizes,
            from + 1,
        )
    }
}

/// The sizes of the files of a request.
pub open spec fn manifest_sizes(files: Seq<ManifestView>) -> Seq<u64> {
    files.map_values(|m: ManifestView| m.size)
}

/// The sizes of the files that are sent.
pub open spec fn file_sizes(files: Seq<LocalFileView>) -> Seq<u64> {
    files.map_values(|f: LocalFileView| f.size)
}

/// The sizes of the files of a request.
pub fn sizes_of_manifests(files: &Vec<FileManifest>) -> (r: Vec<u64>)
    ensures
        r@ == manifest_sizes(manifests(files@)),
{
    let mut r: Vec<u64> = Vec::new();
    for i in 0..files.len()
        invariant
            r.len() == i,
            forall|k: int| 0 <= k < i ==> r[k] == (#[trigger] files[k]).size,
    {
        r.push(files[i].size);
    }
    assert(r@ =~= manifest_sizes(manifests(files@)));
    r
}

/// The sizes of the files that are sent.
pub fn sizes_of_files(files: &Vec<LocalFileEntry>) -> (r: Vec<u64>)
    ensures
        r@ == file_sizes(local_files(files@)),
{
    let mut r: Vec<u64> = Vec::new();
    for i in 0..files.len()
        invariant
            r.len() == i,
            forall|k: int| 0 <= k < i ==> r[k] == (#[trigger] files[k]).size,
    {
        r.push(files[i].size);
    }
    assert(r@ =~= file_sizes(local_files(files@)));
    r
}

proof fn lemma_total_grows(sizes: Seq<u64>, n: int)
    requires
        0 <= n <= sizes.len(),
    ensures
        total_size(sizes.take(n)) <= total_size(sizes),
    decreases sizes.len(),
{
    if n < sizes.len() {
        lemma_total_grows(sizes.drop_last(), n);
        assert(sizes.drop_last().take(n) =~= sizes.take(n));
    } else {
        assert(sizes.take(n) =~= sizes);
    }
}

proof fn lemma_resumed_grows(offsets: Seq<u64>, sizes: Seq<u64>, n: nat, m: nat)
    requires
        n <= m,
    ensures
        resumed_up_to(offsets, sizes, n) <= resumed_up_to(offsets, sizes, m),
    decreases m,
{
    if n < m {
        lemma_resumed_grows(offsets, sizes, n, (m - 1) as nat);
    }
}

/// The sum of all sizes, unless it is more than 64 bits hold.
pub fn checked_total(sizes: &Vec<u64>) -> (r: Option<u64>)
    ensures
        match r {
            Some(n) => n == total_size(sizes@),
            None => total_size(sizes@) > u64::MAX,
        },
{
    let mut sum: u64 = 0;
    for i in 0..sizes.len()
        invariant
            sum == total_size(sizes@.take(i as int)),
    {
        assert(sizes@.take(i + 1).drop_last() =~= sizes@.take(i as int));
        proof {
            lemma_total_grows(sizes@, i + 1);
        }
        match sum.checked_add(sizes[i]) {
            Some(n) => {
                sum = n;
            },
            None => {
                return None;
            },
        }
    }
    assert(sizes@.take(sizes.len() as int) =~= sizes@);
    Some(sum)
}

/// What is already there, unless it is more than 64 bits hold.
pub fn checked_resumed(offsets: &Vec<u64>, sizes: &Vec<u64>) -> (r: Option<u64>)
    ensures
        match r {
            Some(n) => n == resumed(offsets@, sizes@),
            None => resumed(offsets@, sizes@) > u64::MAX,
        },
{
    let n: usize = if offsets.len() <= sizes.len() {
        offsets.len()
    } else {
        sizes.len()
    };
    let mut sum: u64 = 0;
    for i in 0..n
        invariant
            n <= offsets.len(),
            n <= sizes.len(),
            n == (if offsets.len() <= sizes.len() {
                offsets.len()
            } else {
                sizes.len()
            }),
            sum == resumed_up_to(offsets@, sizes@, i as nat),
    {
        proof {
            lemma_resumed_grows(offsets@, sizes@, (i + 1) as nat, n as nat);
        }
        let part: u64 = if offsets[i] <= sizes[i] {
            offsets[i]
        } else {
            sizes[i]
        };
        match sum.checked_add(part) {
            Some(n) => {
                sum = n;
            },
            None => {
                return None;
            },
        }
    }
    Some(sum)
}

/// One offset for each of `len` files: those that were given, then zeros.
pub open spec fn normalized(offsets: Seq<u64>, len: nat) -> Seq<u64> {
    Seq::new(
        len,
        |i: int|
            if i < offsets.len() {
                offsets[i]
            } else {
                0
            },
    )
}

/// Cuts a list of offsets to `len`, or fills it up with zeros.
pub fn normalized_offsets(offsets: &[u64], len: usize) -> (r: Vec<u64>)
    ensures
        r@ == normalized(offsets@, len as nat),
{
    let mut output: Vec<u64> = Vec::new();
    for i in 0..len
        invariant
            output@ == normalized(offsets@, len as nat).take(i as int),
    {
        if i < offsets.len() {
            output.push(offsets[i]);
        } else {
            output.push(0);
        }
        assert(output@ =~= normalized(offsets@, len as nat).take(i + 1));
    }
    assert(normalized(offsets@, len as nat).take(len as int) =~= normalized(offsets@, len as nat));
    output
}

/// A list that already has one offset for each file is left as it is.
pub proof fn lemma_normalized_same(offsets: Seq<u64>)
    ensures
        normalized(offsets, offsets.len()) == offsets,
{
    assert(normalized(offsets, offsets.len()) =~= offsets);
}

/// What was resumed and what is outstanding make up the whole.
pub proof fn lemma_resumed_and_outstanding(offsets: Seq<u64>, sizes: Seq<u64>)
    requires
        offsets.len() == sizes.len(),
    ensures
        resumed(offsets, sizes) + outstanding_from(offsets, sizes, 0) == total_size(sizes),
{
    lemma_split_at(offsets, sizes, 0);
    assert(sizes.take(0) =~= Seq::<u64>::empty());
}

/// The files before `n` are whole in the sum of what was resumed of all of
/// them, what was outstanding of the first `n`, and what is outstanding of the
/// rest.
proof fn lemma_split_at(offsets: Seq<u64>, sizes: Seq<u64>, n: nat)
    requires
        offsets.len() == sizes.len(),
        n <= sizes.len(),
    ensures
        total_size(sizes.take(n as int)) + (resumed(offsets, sizes) - resumed_up_to(
            offsets,
            sizes,
            n,
        )) + outstanding_from(offsets, sizes, n) == total_size(sizes),
    decreases sizes.len() - n,
{
    if n < sizes.len() {
        lemma_split_at(offsets, sizes, n + 1);
        assert(sizes.take(n as int + 1).drop_last() =~= sizes.take(n as int));
    } else {
        assert(sizes.take(n as int) =~= sizes);
    }
}

/// Nothing more than the whole is ever outstanding or resumed.
pub proof fn lemma_resumed_bounded(offsets: Seq<u64>, sizes: Seq<u64>)
    requires
        offsets.len() == sizes.len(),
    ensures
        resumed(offsets, sizes) <= total_size(sizes),
{
    lemma_resumed_and_outstanding(offsets, sizes);
}

/// A size more adds to the sum, and of a file that much is there and that much
/// is outstanding as its offset says, never more than the file.
pub proof fn lemma_sums(sizes: Seq<u64>, size: u64, offset: u64)
    ensures
        total_size(Seq::empty()) == 0,
        total_size(sizes.push(size)) == total_size(sizes) + size,
        offset <= size ==> least(offset, size) == offset && outstanding(offset, size) == size
            - offset,
        offset > size ==> least(offset, size) == size && outstanding(offset, size) == 0,
{
    assert(sizes.push(size).drop_last() =~= sizes);
}

/// What is there of files with one more: the part of that one before its offset,
/// or all of it.
pub proof fn lemma_resumed_of_one_more(offsets: Seq<u64>, sizes: Seq<u64>, offset: u64, size: u64)
    requires
        offsets.len() == sizes.len(),
    ensures
        resumed(offsets.push(offset), sizes.push(size)) == resumed(offsets, sizes) + (if offset
            <= size {
            offset
        } else {
            size
        }),
        resumed(Seq::empty(), Seq::empty()) == 0,
{
    lemma_resumed_of_more(offsets, sizes, offset, size, offsets.len());
}

proof fn lemma_resumed_of_more(
    offsets: Seq<u64>,
    sizes: Seq<u64>,
    offset: u64,
    size: u64,
    n: nat,
)
    requires
        offsets.len() == sizes.len(),
        n <= offsets.len(),
    ensures
        resumed_up_to(offsets.push(offset), sizes.push(size), n) == resumed_up_to(
            offsets,
            sizes,
            n,
        ),
    decreases n,
{
    if n > 0 {
        lemma_resumed_of_more(offsets, sizes, offset, size, (n - 1) as nat);
    }
}

/// Offsets that were given are kept, missing ones are zero, and there are no
/// more than files.
pub proof fn lemma_normalized(offsets: Seq<u64>, len: nat)
    ensures
        normalized(offsets, len).len() == len,
        forall|i: int|
            0 <= i < len && i < offsets.len() ==> #[trigger] normalized(offsets, len)[i]
                == offsets[i],
        forall|i: int|
            offsets.len() <= i < len ==> #[trigger] normalized(offsets, len)[i] == 0,
{
}

/// The sizes are those of the files, one by one.
pub proof fn lemma_sizes(files: Seq<LocalFileView>, requested: Seq<ManifestView>)
    ensures
        file_sizes(files).len() == files.len(),
        forall|i: int| 0 <= i < files.len() ==> #[trigger] file_sizes(files)[i] == files[i].size,
        manifest_sizes(requested).len() == requested.len(),
        forall|i: int|
            0 <= i < requested.len() ==> #[trigger] manifest_sizes(requested)[i]
                == requested[i].size,
{
}

} // verus!
