use vstd::prelude::*;

use crate::bundle::{concat_files, FileEntry, TextBundle};

verus! {

/// Sum of `t[lo..hi]`, as an integer.
pub open spec fn range_sum(t: Seq<u64>, lo: int, hi: int) -> int
    decreases hi - lo,
{
    if hi <= lo {
        0
    } else {
        range_sum(t, lo, hi - 1) + t[hi - 1]
    }
}

/// Index, in the concatenated file list, of the first file of batch `j`.
pub open spec fn batch_start(batches: Seq<TextBundle>, j: int) -> int
    decreases j,
{
    if j <= 0 {
        0
    } else {
        batch_start(batches, j - 1) + batches[j - 1].files.len()
    }
}

/// Token total of batch `j`, given the token total of each file.
pub open spec fn batch_tokens(batches: Seq<TextBundle>, totals: Seq<u64>, j: int) -> int {
    range_sum(totals, batch_start(batches, j), batch_start(batches, j + 1))
}

/// `batches` is the greedy whole-file partition of `files` under `ceiling`:
/// the files in order, no batch empty, every batch of two files or more
/// within the ceiling, and each batch started because its first file would
/// have taken the one before over the ceiling.
pub open spec fn is_greedy_plan(
    files: Seq<FileEntry>,
    totals: Seq<u64>,
    ceiling: u64,
    batches: Seq<TextBundle>,
) -> bool {
    &&& concat_files(batches) == files
    &&& forall|j: int| 0 <= j < batches.len() ==> #[trigger] batches[j].files.len() > 0
    &&& forall|j: int|
        0 <= j < batches.len() && #[trigger] batches[j].files.len() >= 2
            ==> batch_tokens(batches, totals, j) <= ceiling
    &&& forall|j: int|
        0 < j < batches.len() ==> #[trigger] batch_tokens(batches, totals, j - 1)
            + totals[batch_start(batches, j)] > ceiling
}

proof fn lemma_start_push(b: Seq<TextBundle>, x: TextBundle, j: int)
    requires
        0 <= j <= b.len(),
    ensures
        batch_start(b.push(x), j) == batch_start(b, j),
    decreases j,
{
    if j > 0 {
        lemma_start_push(b, x, j - 1);
    }
}

proof fn lemma_start_is_len(b: Seq<TextBundle>)
    ensures
        batch_start(b, b.len() as int) == concat_files(b).len(),
    decreases b.len(),
{
    if b.len() > 0 {
        lemma_start_is_len(b.drop_last());
        lemma_start_push(b.drop_last(), b.last(), b.len() - 1);
        assert(b.drop_last().push(b.last()) == b);
    }
}

proof fn lemma_concat_push(b: Seq<TextBundle>, x: TextBundle)
    ensures
        concat_files(b.push(x)) == concat_files(b) + x.files@,
{
    assert(b.push(x).drop_last() == b);
}

proof fn lemma_close_batch(b: Seq<TextBundle>, closed: TextBundle, t: Seq<u64>, ceiling: u64)
    requires
        is_greedy_plan(concat_files(b), t, ceiling, b),
        closed.files.len() > 0,
        closed.files.len() >= 2 ==> range_sum(
            t,
            batch_start(b, b.len() as int),
            batch_start(b, b.len() as int) + closed.files.len(),
        ) <= ceiling,
        b.len() > 0 ==> batch_tokens(b, t, b.len() - 1) + t[batch_start(b, b.len() as int)]
            > ceiling,
    ensures
        is_greedy_plan(concat_files(b.push(closed)), t, ceiling, b.push(closed)),
        concat_files(b.push(closed)) == concat_files(b) + closed.files@,
        batch_tokens(b.push(closed), t, b.len() as int) == range_sum(
            t,
            batch_start(b, b.len() as int),
            batch_start(b, b.len() as int) + closed.files.len(),
        ),
{
    let nb = b.push(closed);
    lemma_concat_push(b, closed);
    assert forall|j: int| 0 <= j <= b.len() implies batch_start(nb, j) == batch_start(b, j) by {
        lemma_start_push(b, closed, j);
    }
    assert(nb[b.len() as int] == closed);
    assert forall|j: int| 0 <= j < b.len() implies batch_tokens(nb, t, j) == batch_tokens(b, t, j)
        by {
        lemma_start_push(b, closed, j);
        lemma_start_push(b, closed, j + 1);
    }
    assert(forall|j: int| 0 <= j < nb.len() ==> #[trigger] nb[j].files.len() > 0);
    assert forall|j: int| 0 <= j < nb.len() && #[trigger] nb[j].files.len() >= 2 implies batch_tokens(
        nb,
        t,
        j,
    ) <= ceiling by {
        if j < b.len() {
            assert(batch_tokens(nb, t, j) == batch_tokens(b, t, j));
        }
    }
    assert forall|j: int| 0 < j < nb.len() implies #[trigger] batch_tokens(nb, t, j - 1) + t[batch_start(
        nb,
        j,
    )] > ceiling by {
        assert(batch_tokens(nb, t, j - 1) == batch_tokens(b, t, j - 1));
        if j < b.len() {
            assert(batch_tokens(b, t, j - 1) + t[batch_start(b, j)] > ceiling);
        }
    }
}

/// Splits `bundle` into request-sized batches without ever splitting a file.
/// `file_tokens[i]` is the token count of the i-th file. Files are taken in
/// order; a file joins the current batch while the batch's total stays within
/// `ceiling`, and otherwise starts a new batch. A file over the ceiling on its
/// own still forms a batch.
pub fn plan_batches(bundle: TextBundle, file_tokens: &Vec<u64>, ceiling: u64) -> (r: Vec<
    TextBundle,
>)
    requires
        file_tokens.len() == bundle.files.len(),
    ensures
        is_greedy_plan(bundle.files@, file_tokens@, ceiling, r@),
{
    let ghost files = bundle.files@;
    let ghost t = file_tokens@;
    let mut batches: Vec<TextBundle> = Vec::new();
    let mut current: Vec<FileEntry> = Vec::new();
    let mut running: u64 = 0;
    let mut i: usize = 0;
    let n = bundle.files.len();
    for f in it: bundle.files.into_iter()
        invariant
            it.seq() == files,
            n == files.len(),
            i == it.index(),
            i <= files.len(),
            t == file_tokens@,
            t.len() == files.len(),
            concat_files(batches@) + current@ == files.take(i as int),
            current.len() == 0 <==> i == 0,
            i == 0 ==> batches.len() == 0,
            running == range_sum(t, batch_start(batches@, batches.len() as int), i as int),
            current.len() >= 2 ==> running <= ceiling,
            batches.len() > 0 ==> batch_tokens(batches@, t, batches.len() - 1) + t[batch_start(
                batches@,
                batches.len() as int,
            )] > ceiling,
            is_greedy_plan(concat_files(batches@), t, ceiling, batches@),
    {
        proof {
            lemma_start_is_len(batches@);
            assert(files.take(i + 1) == files.take(i as int).push(f));
        }
        assert(i < files.len());
        let tokens = file_tokens[i];
        proof {
            let s = batch_start(batches@, batches.len() as int);
            assert(range_sum(t, s, i + 1) == range_sum(t, s, i as int) + t[i as int]);
            assert(range_sum(t, i as int, i as int) == 0);
        }
        if current.len() == 0 || (running <= ceiling && tokens <= ceiling - running) {
            current.push(f);
            running = running + tokens;
        } else {
            let ghost old_batches = batches@;
            let closed = TextBundle { files: current };
            batches.push(closed);
            proof {
                lemma_close_batch(old_batches, closed, t, ceiling);
                lemma_start_is_len(batches@);
                assert(concat_files(batches@) == files.take(i as int));
                assert(batch_start(batches@, batches.len() as int) == i);
                assert(batch_tokens(batches@, t, old_batches.len() as int) == running);
                assert(running + tokens > ceiling);
            }
            current = Vec::new();
            current.push(f);
            running = tokens;
        }
        i = i + 1;
    }
    if current.len() > 0 {
        let ghost old_batches = batches@;
        let closed = TextBundle { files: current };
        batches.push(closed);
        proof {
            lemma_start_is_len(old_batches);
            lemma_close_batch(old_batches, closed, t, ceiling);
        }
    }
    proof {
        assert(files.take(files.len() as int) == files);
    }
    batches
}

} // verus!

verus! {

/// Joins batches back into one bundle, keeping their order.
pub fn join_batches(batches: Vec<TextBundle>) -> (r: TextBundle)
    ensures
        r.files@ == concat_files(batches@),
{
    let ghost all = batches@;
    let mut files: Vec<FileEntry> = Vec::new();
    for b in it: batches.into_iter()
        invariant
            it.seq() == all,
            files@ == concat_files(all.take(it.index() as int)),
    {
        let mut moved = b.files;
        files.append(&mut moved);
        proof {
            assert(all.take(it.index() + 1).drop_last() == all.take(it.index() as int));
        }
    }
    proof {
        assert(all.take(all.len() as int) == all);
    }
    TextBundle { files }
}

proof fn lemma_locate(b: Seq<TextBundle>, k: int) -> (jp: (int, int))
    requires
        0 <= k < concat_files(b).len(),
    ensures
        0 <= jp.0 < b.len(),
        0 <= jp.1 < b[jp.0].files.len(),
        batch_start(b, jp.0) + jp.1 == k,
        b[jp.0].files[jp.1] == concat_files(b)[k],
    decreases b.len(),
{
    let init = b.drop_last();
    assert(init.push(b.last()) == b);
    lemma_concat_push(init, b.last());
    lemma_start_is_len(init);
    lemma_start_push(init, b.last(), init.len() as int);
    if k < concat_files(init).len() {
        let (j, p) = lemma_locate(init, k);
        lemma_start_push(init, b.last(), j);
        (j, p)
    } else {
        (init.len() as int, k - concat_files(init).len())
    }
}

/// Planning then joining gives back the files of the bundle, unchanged and
/// in their order.
pub proof fn lemma_plan_round_trip(
    bundle: TextBundle,
    file_tokens: Seq<u64>,
    ceiling: u64,
    batches: Seq<TextBundle>,
    joined: TextBundle,
)
    requires
        is_greedy_plan(bundle.files@, file_tokens, ceiling, batches),
        joined.files@ == concat_files(batches),
    ensures
        joined.files@ == bundle.files@,
{
}

/// No file, hence no block and no block's strings, is divided between
/// batches: the k-th file of the bundle stands whole in one place of
/// the plan: in the batch whose range of positions holds k.
pub proof fn lemma_plan_no_split(
    bundle: TextBundle,
    file_tokens: Seq<u64>,
    ceiling: u64,
    batches: Seq<TextBundle>,
    k: int,
) -> (jp: (int, int))
    requires
        is_greedy_plan(bundle.files@, file_tokens, ceiling, batches),
        0 <= k < bundle.files.len(),
    ensures
        0 <= jp.0 < batches.len(),
        0 <= jp.1 < batches[jp.0].files.len(),
        batch_start(batches, jp.0) <= k < batch_start(batches, jp.0 + 1),
        batches[jp.0].files[jp.1] == bundle.files@[k],
        batches[jp.0].files[jp.1].blocks@ == bundle.files@[k].blocks@,
{
    lemma_locate(batches, k)
}

} // verus!
