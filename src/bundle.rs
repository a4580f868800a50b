use vstd::prelude::*;

verus! {

/// A unit of translatable text: the strings to translate, with optional
/// read-only context lines that come before and after them.
pub struct Block {
    /// The block's identifier within its file.
    pub name: String,
    pub before_strings: Option<Vec<String>>,
    pub after_strings: Option<Vec<String>>,
    /// The payload to translate, in order.
    pub strings: Vec<String>,
}

/// The blocks of one file, in order; `id` identifies the file in its bundle.
pub struct FileEntry {
    pub id: String,
    pub blocks: Vec<Block>,
}

/// Text extracted from a project: files, each made of named blocks.
pub struct TextBundle {
    pub files: Vec<FileEntry>,
}

/// A term with its fixed translation and a free-text note.
pub struct GlossaryEntry {
    pub term: String,
    pub translation: String,
    pub note: String,
}

/// The translated strings of one block, index-aligned with the block's `strings`.
pub struct TranslatedBlock {
    pub name: String,
    pub strings: Vec<String>,
}

/// The translated blocks of one file.
pub struct TranslatedFile {
    pub id: String,
    pub blocks: Vec<TranslatedBlock>,
}

/// A translation result, shaped as the bundle it answers.
pub struct TranslationResponse {
    pub files: Vec<TranslatedFile>,
}

/// The character sequences of a list of strings.
pub open spec fn views_of(v: Seq<String>) -> Seq<Seq<char>> {
    v.map_values(|s: String| s@)
}

/// All strings of a block list, block after block.
pub open spec fn block_strings(blocks: Seq<Block>) -> Seq<Seq<char>>
    decreases blocks.len(),
{
    if blocks.len() == 0 {
        seq![]
    } else {
        block_strings(blocks.drop_last()) + views_of(blocks.last().strings@)
    }
}

/// All strings of a file list, file after file.
pub open spec fn file_strings(files: Seq<FileEntry>) -> Seq<Seq<char>>
    decreases files.len(),
{
    if files.len() == 0 {
        seq![]
    } else {
        file_strings(files.drop_last()) + block_strings(files.last().blocks@)
    }
}

/// The files of a list of bundles, bundle after bundle.
pub open spec fn concat_files(batches: Seq<TextBundle>) -> Seq<FileEntry>
    decreases batches.len(),
{
    if batches.len() == 0 {
        seq![]
    } else {
        concat_files(batches.drop_last()) + batches.last().files@
    }
}

pub(crate) proof fn lemma_block_strings_step(blocks: Seq<Block>, i: int)
    requires
        0 <= i < blocks.len(),
    ensures
        block_strings(blocks.take(i + 1)) == block_strings(blocks.take(i)) + views_of(
            blocks[i].strings@,
        ),
{
    assert(blocks.take(i + 1).drop_last() == blocks.take(i));
}

pub(crate) proof fn lemma_file_strings_step(files: Seq<FileEntry>, i: int)
    requires
        0 <= i < files.len(),
    ensures
        file_strings(files.take(i + 1)) == file_strings(files.take(i)) + block_strings(
            files[i].blocks@,
        ),
{
    assert(files.take(i + 1).drop_last() == files.take(i));
}

} // verus!
