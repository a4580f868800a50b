use vstd::prelude::*;

use crate::batch::is_greedy_plan;
use crate::bundle::{
    block_strings, concat_files, file_strings, lemma_file_strings_step, views_of, Block, FileEntry,
    TextBundle, TranslatedBlock, TranslatedFile, TranslationResponse,
};
use crate::dispatch::{request_bundles, TranslateError, TranslationRequest};
use crate::text::{normalize_newlines, normalized};

verus! {

/// A translated block as values: its name and its strings.
pub type BlockView = (Seq<char>, Seq<Seq<char>>);

/// A translated file as values: its id and its blocks.
pub type FileView = (Seq<char>, Seq<BlockView>);

pub open spec fn block_view(b: TranslatedBlock) -> BlockView {
    (b.name@, views_of(b.strings@))
}

pub open spec fn file_view(f: TranslatedFile) -> FileView {
    (f.id@, f.blocks@.map_values(|b: TranslatedBlock| block_view(b)))
}

/// The files of a response as values.
pub open spec fn response_view(files: Seq<TranslatedFile>) -> Seq<FileView> {
    files.map_values(|f: TranslatedFile| file_view(f))
}

/// Does `out` have the shape of `files`: the same ids and block names in the
/// same order, and for every block as many strings as the block it answers?
pub open spec fn aligned(files: Seq<FileEntry>, out: Seq<FileView>) -> bool {
    &&& out.len() == files.len()
    &&& forall|k: int|
        0 <= k < files.len() ==> {
            &&& (#[trigger] out[k]).0 == files[k].id@
            &&& out[k].1.len() == files[k].blocks.len()
            &&& forall|m: int|
                0 <= m < files[k].blocks.len() ==> {
                    &&& (#[trigger] out[k].1[m]).0 == files[k].blocks[m].name@
                    &&& out[k].1[m].1.len() == files[k].blocks[m].strings.len()
                }
        }
}

/// All strings of a list of translated blocks, block after block.
pub open spec fn block_view_strings(blocks: Seq<BlockView>) -> Seq<Seq<char>>
    decreases blocks.len(),
{
    if blocks.len() == 0 {
        seq![]
    } else {
        block_view_strings(blocks.drop_last()) + blocks.last().1
    }
}

/// All strings of a list of translated files, file after file.
pub open spec fn view_strings(files: Seq<FileView>) -> Seq<Seq<char>>
    decreases files.len(),
{
    if files.len() == 0 {
        seq![]
    } else {
        view_strings(files.drop_last()) + block_view_strings(files.last().1)
    }
}

proof fn lemma_block_count(blocks: Seq<Block>, out: Seq<BlockView>)
    requires
        out.len() == blocks.len(),
        forall|m: int| 0 <= m < blocks.len() ==> (#[trigger] out[m]).1.len() == blocks[m].strings.len(),
    ensures
        block_view_strings(out).len() == block_strings(blocks).len(),
    decreases blocks.len(),
{
    if blocks.len() > 0 {
        lemma_block_count(blocks.drop_last(), out.drop_last());
        assert(out.drop_last().len() == blocks.drop_last().len());
    }
}

/// The answer to `b`: its name with `texts[offset..]`, as many strings
/// as the block has; none when `texts` runs out first.
fn answer_block(b: &Block, texts: &Vec<String>, offset: usize) -> (r: Option<TranslatedBlock>)
    requires
        offset <= texts.len(),
    ensures
        r is Some <==> offset + b.strings.len() <= texts.len(),
        r matches Some(t) ==> block_view(t) == (b.name@, views_of(texts@).subrange(
            offset as int,
            offset + b.strings.len(),
        )),
{
    let n = b.strings.len();
    if n > texts.len() - offset {
        return None;
    }
    let mut strings: Vec<String> = Vec::new();
    let mut k: usize = 0;
    while k < n
        invariant
            n == b.strings.len(),
            offset + n <= texts.len(),
            k <= n,
            views_of(strings@) == views_of(texts@).subrange(offset as int, offset + k),
        decreases n - k,
    {
        let ghost before = strings@;
        strings.push(texts[offset + k].clone());
        proof {
            assert(views_of(strings@) =~= views_of(before).push(texts@[offset + k]@));
            assert(views_of(texts@).subrange(offset as int, offset + k + 1) =~= views_of(
                texts@,
            ).subrange(offset as int, offset + k).push(texts@[offset + k]@));
        }
        k = k + 1;
    }
    Some(TranslatedBlock { name: b.name.clone(), strings })
}

/// The answer to `f` from `texts[offset..]`, with the number of texts
/// it took; none when `texts` runs out.
fn answer_file(f: &FileEntry, texts: &Vec<String>, offset: usize) -> (r: Option<(TranslatedFile, usize)>)
    requires
        offset <= texts.len(),
    ensures
        r is Some <==> offset + block_strings(f.blocks@).len() <= texts.len(),
        r matches Some((t, n)) ==> {
            &&& n == block_strings(f.blocks@).len()
            &&& aligned(seq![*f], seq![file_view(t)])
            &&& block_view_strings(file_view(t).1) == views_of(texts@).subrange(
                offset as int,
                offset + block_strings(f.blocks@).len(),
            )
        },
{
    let nb = f.blocks.len();
    let mut blocks: Vec<TranslatedBlock> = Vec::new();
    let mut at: usize = offset;
    let mut j: usize = 0;
    while j < nb
        invariant
            nb == f.blocks.len(),
            j <= nb,
            offset <= at <= texts.len(),
            at == offset + block_strings(f.blocks@.take(j as int)).len(),
            blocks.len() == j,
            forall|m: int|
                0 <= m < j ==> {
                    &&& (#[trigger] blocks@[m]).name@ == f.blocks@[m].name@
                    &&& blocks@[m].strings.len() == f.blocks@[m].strings.len()
                },
            block_view_strings(blocks@.map_values(|b: TranslatedBlock| block_view(b)))
                == views_of(texts@).subrange(offset as int, at as int),
        decreases nb - j,
    {
        proof {
            assert(f.blocks@.take(j + 1).drop_last() == f.blocks@.take(j as int));
        }
        match answer_block(&f.blocks[j], texts, at) {
            None => {
                proof {
                    lemma_strings_grow(f.blocks@, j as int + 1, nb as int);
                    assert(f.blocks@.take(nb as int) == f.blocks@);
                    assert(views_of(f.blocks@[j as int].strings@).len() == f.blocks@[j as int].strings.len());
                }
                return None;
            },
            Some(t) => {
                let ghost before = blocks@;
                let len = f.blocks[j].strings.len();
                blocks.push(t);
                proof {
                    let bv = blocks@.map_values(|b: TranslatedBlock| block_view(b));
                    assert(bv.drop_last() =~= before.map_values(|b: TranslatedBlock| block_view(b)));
                    assert(bv.last() == block_view(t));
                    assert(views_of(texts@).subrange(offset as int, at + len) =~= views_of(
                        texts@,
                    ).subrange(offset as int, at as int) + views_of(texts@).subrange(
                        at as int,
                        at + len,
                    ));
                }
                at = at + len;
            },
        }
        j = j + 1;
    }
    proof {
        assert(f.blocks@.take(nb as int) == f.blocks@);
    }
    let t = TranslatedFile { id: f.id.clone(), blocks };
    proof {
        let fv = file_view(t);
        assert(seq![fv][0] == fv);
        assert(seq![*f][0] == *f);
        assert forall|m: int| 0 <= m < f.blocks.len() implies (#[trigger] fv.1[m]).0
            == f.blocks@[m].name@ && fv.1[m].1.len() == f.blocks@[m].strings.len() by {
            assert(fv.1[m] == block_view(blocks@[m]));
        }
    }
    Some((t, at - offset))
}

proof fn lemma_strings_grow(blocks: Seq<Block>, a: int, b: int)
    requires
        0 <= a <= b <= blocks.len(),
    ensures
        block_strings(blocks.take(a)).len() <= block_strings(blocks.take(b)).len(),
    decreases b - a,
{
    if a < b {
        lemma_strings_grow(blocks, a, b - 1);
        assert(blocks.take(b).drop_last() == blocks.take(b - 1));
    }
}

proof fn lemma_aligned_concat(a: Seq<FileEntry>, x: Seq<FileView>, b: Seq<FileEntry>, y: Seq<FileView>)
    requires
        aligned(a, x),
        aligned(b, y),
    ensures
        aligned(a + b, x + y),
{
    let ab = a + b;
    let xy = x + y;
    assert forall|k: int| 0 <= k < ab.len() implies {
        &&& (#[trigger] xy[k]).0 == ab[k].id@
        &&& xy[k].1.len() == ab[k].blocks.len()
        &&& forall|m: int|
            0 <= m < ab[k].blocks.len() ==> {
                &&& (#[trigger] xy[k].1[m]).0 == ab[k].blocks[m].name@
                &&& xy[k].1[m].1.len() == ab[k].blocks[m].strings.len()
            }
    } by {
        if k < a.len() {
            assert(xy[k] == x[k] && ab[k] == a[k]);
        } else {
            assert(xy[k] == y[k - a.len()] && ab[k] == b[k - a.len()]);
        }
    }
}

proof fn lemma_file_strings_grow(files: Seq<FileEntry>, a: int, b: int)
    requires
        0 <= a <= b <= files.len(),
    ensures
        file_strings(files.take(a)).len() <= file_strings(files.take(b)).len(),
    decreases b - a,
{
    if a < b {
        lemma_file_strings_grow(files, a, b - 1);
        assert(files.take(b).drop_last() == files.take(b - 1));
    }
}

/// Puts the answers of one-string-per-call translation back into the shape
/// of `bundle`: the i-th answer goes to the i-th string. Fails when there
/// are not exactly as many answers as strings.
pub fn merge_plain(bundle: &TextBundle, translated: &Vec<String>) -> (r: Result<
    TranslationResponse,
    TranslateError,
>)
    ensures
        r is Ok <==> translated.len() == file_strings(bundle.files@).len(),
        r is Err ==> r matches Err(TranslateError::MalformedProviderResponse),
        r matches Ok(resp) ==> {
            &&& aligned(bundle.files@, response_view(resp.files@))
            &&& view_strings(response_view(resp.files@)) == views_of(translated@)
        },
{
    let files = &bundle.files;
    let nf = files.len();
    let mut out: Vec<TranslatedFile> = Vec::new();
    let mut offset: usize = 0;
    let mut i: usize = 0;
    while i < nf
        invariant
            nf == files.len(),
            files@ == bundle.files@,
            i <= nf,
            offset <= translated.len(),
            offset == file_strings(files@.take(i as int)).len(),
            aligned(files@.take(i as int), response_view(out@)),
            view_strings(response_view(out@)) == views_of(translated@).subrange(0, offset as int),
        decreases nf - i,
    {
        proof {
            lemma_file_strings_step(files@, i as int);
        }
        match answer_file(&files[i], translated, offset) {
            None => {
                proof {
                    lemma_file_strings_grow(files@, i + 1, nf as int);
                    assert(files@.take(nf as int) == files@);
                    assert(file_strings(files@.take(i + 1)).len() == offset + block_strings(
                        files@[i as int].blocks@,
                    ).len());
                    assert(file_strings(files@).len() > translated.len());
                }
                return Err(TranslateError::MalformedProviderResponse);
            },
            Some((t, used)) => {
                let ghost before = out@;
                out.push(t);
                proof {
                    lemma_aligned_concat(
                        files@.take(i as int),
                        response_view(before),
                        seq![files@[i as int]],
                        seq![file_view(t)],
                    );
                    assert(files@.take(i as int) + seq![files@[i as int]] == files@.take(i + 1));
                    assert(response_view(before) + seq![file_view(t)] =~= response_view(out@));
                    assert(response_view(out@).drop_last() =~= response_view(before));
                    let n = block_strings(files@[i as int].blocks@).len();
                    assert(views_of(translated@).subrange(0, offset + n) =~= views_of(
                        translated@,
                    ).subrange(0, offset as int) + views_of(translated@).subrange(
                        offset as int,
                        offset + n,
                    ));
                }
                offset = offset + used;
            },
        }
        i = i + 1;
    }
    proof {
        assert(files@.take(nf as int) == files@);
    }
    if offset != translated.len() {
        return Err(TranslateError::MalformedProviderResponse);
    }
    proof {
        assert(views_of(translated@).subrange(0, offset as int) =~= views_of(translated@));
    }
    Ok(TranslationResponse { files: out })
}

/// Index of the first file at or after `i` whose id is `id`, or -1.
pub open spec fn find_file_from(files: Seq<TranslatedFile>, id: Seq<char>, i: int) -> int
    decreases files.len() - i,
{
    if i < 0 || i >= files.len() {
        -1
    } else if files[i].id@ == id {
        i
    } else {
        find_file_from(files, id, i + 1)
    }
}

/// Index of the first block at or after `i` whose name is `name`, or -1.
pub open spec fn find_block_from(blocks: Seq<TranslatedBlock>, name: Seq<char>, i: int) -> int
    decreases blocks.len() - i,
{
    if i < 0 || i >= blocks.len() {
        -1
    } else if blocks[i].name@ == name {
        i
    } else {
        find_block_from(blocks, name, i + 1)
    }
}

/// The block of a reply that answers block `name` of file `id`: the first
/// block so named in the first file so named.
pub open spec fn reply_block(reply: Seq<TranslatedFile>, id: Seq<char>, name: Seq<char>) -> Option<
    TranslatedBlock,
> {
    let k = find_file_from(reply, id, 0);
    if k < 0 {
        None
    } else {
        let m = find_block_from(reply[k].blocks@, name, 0);
        if m < 0 {
            None
        } else {
            Some(reply[k].blocks@[m])
        }
    }
}

/// Does the reply answer every block of `files` with as many strings as the
/// block has?
pub open spec fn reply_fits(files: Seq<FileEntry>, reply: Seq<TranslatedFile>) -> bool {
    forall|k: int, m: int|
        0 <= k < files.len() && 0 <= m < files[k].blocks.len() ==> {
            &&& #[trigger] reply_block(reply, files[k].id@, files[k].blocks@[m].name@) is Some
            &&& reply_block(reply, files[k].id@, files[k].blocks@[m].name@)->0.strings.len()
                == files[k].blocks@[m].strings.len()
        }
}

/// The reply laid out as `files`: their ids and block names, in their order,
/// with the strings of the answering blocks.
pub open spec fn arranged(files: Seq<FileEntry>, reply: Seq<TranslatedFile>) -> Seq<FileView> {
    Seq::new(
        files.len(),
        |k: int|
            (
                files[k].id@,
                Seq::new(
                    files[k].blocks@.len(),
                    |m: int|
                        (
                            files[k].blocks@[m].name@,
                            views_of(
                                reply_block(
                                    reply,
                                    files[k].id@,
                                    files[k].blocks@[m].name@,
                                )->0.strings@,
                            ),
                        ),
                ),
            ),
    )
}

fn find_file(files: &Vec<TranslatedFile>, id: &String) -> (r: Option<usize>)
    ensures
        match r {
            Some(k) => k < files.len() && find_file_from(files@, id@, 0) == k,
            None => find_file_from(files@, id@, 0) == -1,
        },
{
    let n = files.len();
    let mut i: usize = 0;
    while i < n
        invariant
            n == files.len(),
            i <= n,
            find_file_from(files@, id@, 0) == find_file_from(files@, id@, i as int),
        decreases n - i,
    {
        if files[i].id == *id {
            return Some(i);
        }
        i = i + 1;
    }
    None
}

fn find_block(blocks: &Vec<TranslatedBlock>, name: &String) -> (r: Option<usize>)
    ensures
        match r {
            Some(m) => m < blocks.len() && find_block_from(blocks@, name@, 0) == m,
            None => find_block_from(blocks@, name@, 0) == -1,
        },
{
    let n = blocks.len();
    let mut i: usize = 0;
    while i < n
        invariant
            n == blocks.len(),
            i <= n,
            find_block_from(blocks@, name@, 0) == find_block_from(blocks@, name@, i as int),
        decreases n - i,
    {
        if blocks[i].name == *name {
            return Some(i);
        }
        i = i + 1;
    }
    None
}

fn copy_strings(v: &Vec<String>) -> (r: Vec<String>)
    ensures
        views_of(r@) == views_of(v@),
{
    let mut out: Vec<String> = Vec::new();
    let n = v.len();
    let mut i: usize = 0;
    while i < n
        invariant
            n == v.len(),
            i <= n,
            views_of(out@) == views_of(v@.take(i as int)),
        decreases n - i,
    {
        let ghost before = out@;
        out.push(v[i].clone());
        proof {
            assert(views_of(out@) =~= views_of(before).push(v@[i as int]@));
            assert(views_of(v@.take(i + 1)) =~= views_of(v@.take(i as int)).push(v@[i as int]@));
        }
        i = i + 1;
    }
    proof {
        assert(v@.take(n as int) == v@);
    }
    out
}

/// Lays out a chat reply as the request's `files`, looking each file up by
/// id and each block by name; none when a block is not answered, or not
/// with as many strings as it has.
pub fn arrange_reply(files: &Vec<FileEntry>, reply: &Vec<TranslatedFile>) -> (r: Option<
    Vec<TranslatedFile>,
>)
    ensures
        r is Some <==> reply_fits(files@, reply@),
        r matches Some(v) ==> response_view(v@) == arranged(files@, reply@),
{
    let ghost want = arranged(files@, reply@);
    let nf = files.len();
    let mut out: Vec<TranslatedFile> = Vec::new();
    let mut k: usize = 0;
    while k < nf
        invariant
            nf == files.len(),
            k <= nf,
            want == arranged(files@, reply@),
            response_view(out@) == want.take(k as int),
            forall|a: int, m: int|
                0 <= a < k && 0 <= m < files@[a].blocks.len() ==> {
                    &&& #[trigger] reply_block(reply@, files@[a].id@, files@[a].blocks@[m].name@) is Some
                    &&& reply_block(reply@, files@[a].id@, files@[a].blocks@[m].name@)->0.strings.len()
                        == files@[a].blocks@[m].strings.len()
                },
        decreases nf - k,
    {
        let f = &files[k];
        let ghost fk = files@[k as int];
        let at = find_file(reply, &f.id);
        let found = match at {
            None => {
                proof {
                    if f.blocks.len() > 0 {
                        assert(reply_block(reply@, fk.id@, fk.blocks@[0].name@) is None);
                    }
                }
                if f.blocks.len() > 0 {
                    return None;
                }
                0
            },
            Some(a) => a,
        };
        let nb = f.blocks.len();
        let mut blocks: Vec<TranslatedBlock> = Vec::new();
        let mut m: usize = 0;
        while m < nb
            invariant
                nf == files.len(),
                k < nf,
                fk == files@[k as int],
                *f == fk,
                nb == fk.blocks.len(),
                m <= nb,
                at matches Some(a) ==> a == found,
                nb > 0 ==> at is Some,
                at matches Some(a) ==> a < reply.len() && find_file_from(reply@, fk.id@, 0) == a,
                want == arranged(files@, reply@),
                blocks@.map_values(|b: TranslatedBlock| block_view(b)) == want[k as int].1.take(m as int),
                forall|j: int|
                    0 <= j < m ==> {
                        &&& #[trigger] reply_block(reply@, fk.id@, fk.blocks@[j].name@) is Some
                        &&& reply_block(reply@, fk.id@, fk.blocks@[j].name@)->0.strings.len()
                            == fk.blocks@[j].strings.len()
                    },
            decreases nb - m,
        {
            let b = &f.blocks[m];
            let rf = &reply[found];
            let pick = match find_block(&rf.blocks, &b.name) {
                None => return None,
                Some(p) => p,
            };
            let answer = &rf.blocks[pick];
            if answer.strings.len() != b.strings.len() {
                return None;
            }
            let ghost before = blocks@;
            blocks.push(TranslatedBlock { name: b.name.clone(), strings: copy_strings(&answer.strings) });
            proof {
                assert(reply_block(reply@, fk.id@, fk.blocks@[m as int].name@) == Some(*answer));
                assert(blocks@.map_values(|b: TranslatedBlock| block_view(b)) =~= before.map_values(
                    |b: TranslatedBlock| block_view(b),
                ).push(want[k as int].1[m as int]));
                assert(want[k as int].1.take(m + 1) =~= want[k as int].1.take(m as int).push(
                    want[k as int].1[m as int],
                ));
            }
            m = m + 1;
        }
        let ghost before = out@;
        let t = TranslatedFile { id: f.id.clone(), blocks };
        out.push(t);
        proof {
            assert(blocks@.map_values(|b: TranslatedBlock| block_view(b)) =~= want[k as int].1);
            assert(response_view(out@) =~= response_view(before).push(file_view(t)));
            assert(want.take(k + 1) =~= want.take(k as int).push(want[k as int]));
        }
        k = k + 1;
    }
    proof {
        assert(want.take(nf as int) == want);
    }
    Some(out)
}

/// Does every chat reply answer its request, one reply per request?
pub open spec fn replies_fit(
    requests: Seq<TranslationRequest>,
    replies: Seq<TranslationResponse>,
) -> bool {
    &&& requests.len() == replies.len()
    &&& forall|j: int|
        0 <= j < requests.len() ==> reply_fits(
            (#[trigger] requests[j]).files.files@,
            replies[j].files@,
        )
}

/// The replies, each laid out as its request, one after the other.
pub open spec fn merged_replies(
    requests: Seq<TranslationRequest>,
    replies: Seq<TranslationResponse>,
) -> Seq<FileView>
    decreases requests.len(),
{
    if requests.len() == 0 || replies.len() == 0 {
        seq![]
    } else {
        merged_replies(requests.drop_last(), replies.drop_last()) + arranged(
            requests.last().files.files@,
            replies.last().files@,
        )
    }
}

proof fn lemma_arranged_aligned(files: Seq<FileEntry>, reply: Seq<TranslatedFile>)
    requires
        reply_fits(files, reply),
    ensures
        aligned(files, arranged(files, reply)),
{
    let out = arranged(files, reply);
    assert forall|k: int| 0 <= k < files.len() implies {
        &&& (#[trigger] out[k]).0 == files[k].id@
        &&& out[k].1.len() == files[k].blocks.len()
        &&& forall|m: int|
            0 <= m < files[k].blocks.len() ==> {
                &&& (#[trigger] out[k].1[m]).0 == files[k].blocks[m].name@
                &&& out[k].1[m].1.len() == files[k].blocks[m].strings.len()
            }
    } by {
        assert forall|m: int| 0 <= m < files[k].blocks.len() implies {
            &&& (#[trigger] out[k].1[m]).0 == files[k].blocks[m].name@
            &&& out[k].1[m].1.len() == files[k].blocks[m].strings.len()
        } by {
            assert(reply_block(reply, files[k].id@, files[k].blocks@[m].name@) is Some);
        }
    }
}

/// Merges the replies of the chat calls, each laid out as its request, in
/// request order. Fails when a reply is missing, or leaves a block
/// unanswered or answered with another number of strings.
pub fn merge_replies(
    requests: &Vec<TranslationRequest>,
    replies: &Vec<TranslationResponse>,
) -> (r: Result<TranslationResponse, TranslateError>)
    ensures
        r is Ok <==> replies_fit(requests@, replies@),
        r is Err ==> r matches Err(TranslateError::MalformedProviderResponse),
        r matches Ok(resp) ==> {
            &&& response_view(resp.files@) == merged_replies(requests@, replies@)
            &&& aligned(concat_files(request_bundles(requests@)), response_view(resp.files@))
        },
{
    let n = requests.len();
    if replies.len() != n {
        return Err(TranslateError::MalformedProviderResponse);
    }
    let mut out: Vec<TranslatedFile> = Vec::new();
    let mut j: usize = 0;
    while j < n
        invariant
            n == requests.len(),
            n == replies.len(),
            j <= n,
            response_view(out@) == merged_replies(requests@.take(j as int), replies@.take(j as int)),
            aligned(concat_files(request_bundles(requests@.take(j as int))), response_view(out@)),
            forall|i: int|
                0 <= i < j ==> reply_fits(
                    (#[trigger] requests@[i]).files.files@,
                    replies@[i].files@,
                ),
        decreases n - j,
    {
        let q = &requests[j];
        let mut part = match arrange_reply(&q.files.files, &replies[j].files) {
            None => return Err(TranslateError::MalformedProviderResponse),
            Some(v) => v,
        };
        let ghost before = out@;
        let ghost added = part@;
        out.append(&mut part);
        proof {
            let rq = requests@.take(j + 1);
            let rp = replies@.take(j + 1);
            assert(rq.drop_last() == requests@.take(j as int));
            assert(rp.drop_last() == replies@.take(j as int));
            assert(response_view(out@) =~= response_view(before) + response_view(added));
            lemma_arranged_aligned(q.files.files@, replies@[j as int].files@);
            lemma_aligned_concat(
                concat_files(request_bundles(requests@.take(j as int))),
                response_view(before),
                q.files.files@,
                response_view(added),
            );
            assert(request_bundles(rq).drop_last() =~= request_bundles(requests@.take(j as int)));
        }
        j = j + 1;
    }
    proof {
        assert(requests@.take(n as int) == requests@);
        assert(replies@.take(n as int) == replies@);
    }
    Ok(TranslationResponse { files: out })
}

/// Each string with its line breaks rewritten as the in-line marker.
pub open spec fn normalized_strings(v: Seq<Seq<char>>) -> Seq<Seq<char>> {
    v.map_values(|s: Seq<char>| normalized(s))
}

/// The files with every string normalized.
pub open spec fn normalized_view(files: Seq<FileView>) -> Seq<FileView> {
    files.map_values(
        |f: FileView| (f.0, f.1.map_values(|b: BlockView| (b.0, normalized_strings(b.1)))),
    )
}

fn normalize_block(b: TranslatedBlock) -> (r: TranslatedBlock)
    ensures
        block_view(r) == (b.name@, normalized_strings(views_of(b.strings@))),
{
    let mut strings: Vec<String> = Vec::new();
    let n = b.strings.len();
    let mut i: usize = 0;
    while i < n
        invariant
            n == b.strings.len(),
            i <= n,
            views_of(strings@) == normalized_strings(views_of(b.strings@.take(i as int))),
        decreases n - i,
    {
        let ghost before = strings@;
        strings.push(normalize_newlines(b.strings[i].as_str()));
        proof {
            assert(views_of(strings@) =~= views_of(before).push(normalized(b.strings@[i as int]@)));
            assert(normalized_strings(views_of(b.strings@.take(i + 1))) =~= normalized_strings(
                views_of(b.strings@.take(i as int)),
            ).push(normalized(b.strings@[i as int]@)));
        }
        i = i + 1;
    }
    proof {
        assert(b.strings@.take(n as int) == b.strings@);
    }
    TranslatedBlock { name: b.name, strings }
}

fn normalize_file(f: TranslatedFile) -> (r: TranslatedFile)
    ensures
        file_view(r) == normalized_view(seq![file_view(f)])[0],
{
    let ghost want = normalized_view(seq![file_view(f)])[0].1;
    let ghost src = f.blocks@;
    let mut blocks: Vec<TranslatedBlock> = Vec::new();
    for b in it: f.blocks.into_iter()
        invariant
            it.seq() == src,
            want == normalized_view(seq![file_view(f)])[0].1,
            want.len() == src.len(),
            forall|m: int| 0 <= m < src.len() ==> #[trigger] want[m] == (src[m].name@, normalized_strings(views_of(src[m].strings@))),
            blocks@.map_values(|t: TranslatedBlock| block_view(t)) == want.take(it.index() as int),
    {
        let ghost before = blocks@;
        let ghost m = it.index() as int;
        let t = normalize_block(b);
        blocks.push(t);
        proof {
            assert(blocks@.map_values(|t: TranslatedBlock| block_view(t)) =~= before.map_values(
                |t: TranslatedBlock| block_view(t),
            ).push(want[m]));
            assert(want.take(m + 1) =~= want.take(m).push(want[m]));
        }
    }
    proof {
        assert(want.take(src.len() as int) == want);
    }
    let r = TranslatedFile { id: f.id, blocks };
    proof {
        assert(file_view(r).1 =~= want);
    }
    r
}

/// Rewrites the line breaks of every string of a response as the in-line
/// marker, keeping its shape.
pub fn normalize_response(response: TranslationResponse) -> (r: TranslationResponse)
    ensures
        response_view(r.files@) == normalized_view(response_view(response.files@)),
{
    let ghost src = response.files@;
    let ghost want = normalized_view(response_view(src));
    let mut files: Vec<TranslatedFile> = Vec::new();
    for f in it: response.files.into_iter()
        invariant
            it.seq() == src,
            want == normalized_view(response_view(src)),
            response_view(files@) == want.take(it.index() as int),
    {
        let ghost before = files@;
        let ghost k = it.index() as int;
        let t = normalize_file(f);
        files.push(t);
        proof {
            assert(response_view(files@) =~= response_view(before).push(file_view(t)));
            assert(want[k] == normalized_view(seq![file_view(f)])[0]);
            assert(want.take(k + 1) =~= want.take(k).push(want[k]));
        }
    }
    proof {
        assert(want.take(src.len() as int) == want);
    }
    TranslationResponse { files }
}

/// The last step of a request: normalizes the merged response when asked to.
pub fn finish_response(response: TranslationResponse, normalize: bool) -> (r: TranslationResponse)
    ensures
        normalize ==> response_view(r.files@) == normalized_view(response_view(response.files@)),
        !normalize ==> r == response,
{
    if normalize {
        normalize_response(response)
    } else {
        response
    }
}

/// Normalizing keeps a response lined up with the request it answers.
pub proof fn lemma_normalize_keeps_alignment(files: Seq<FileEntry>, out: Seq<FileView>)
    requires
        aligned(files, out),
    ensures
        aligned(files, normalized_view(out)),
{
    let n = normalized_view(out);
    assert forall|k: int| 0 <= k < files.len() implies {
        &&& (#[trigger] n[k]).0 == files[k].id@
        &&& n[k].1.len() == files[k].blocks.len()
        &&& forall|m: int|
            0 <= m < files[k].blocks.len() ==> {
                &&& (#[trigger] n[k].1[m]).0 == files[k].blocks[m].name@
                &&& n[k].1[m].1.len() == files[k].blocks[m].strings.len()
            }
    } by {
        assert(n[k].1 == out[k].1.map_values(|b: BlockView| (b.0, normalized_strings(b.1))));
    }
}

/// The merged answer of a chat request lines up with the bundle that was
/// planned into batches: every file and block of the bundle is answered,
/// in order, with as many strings as it has.
pub proof fn lemma_chat_response_aligned(
    bundle: TextBundle,
    file_tokens: Seq<u64>,
    ceiling: u64,
    requests: Seq<TranslationRequest>,
    out: Seq<FileView>,
)
    requires
        is_greedy_plan(bundle.files@, file_tokens, ceiling, request_bundles(requests)),
        aligned(concat_files(request_bundles(requests)), out),
    ensures
        aligned(bundle.files@, out),
{
}

} // verus!
