use vstd::prelude::*;

use crate::batch::{is_greedy_plan, plan_batches};
use crate::bundle::{
    file_strings, lemma_block_strings_step, lemma_file_strings_step, views_of, block_strings,
    FileEntry, GlossaryEntry, TextBundle,
};

verus! {

/// The translation services, each with its own protocol.
#[derive(PartialEq, Eq, Structural, Clone, Copy, Debug)]
pub enum Backend {
    /// Basic machine translation; needs no key.
    Google,
    /// Regional machine translation; needs a key and a folder id.
    Yandex,
    /// Machine translation that registers a glossary first.
    DeepL,
    /// Chat-completion services.
    OpenAI,
    Anthropic,
    DeepSeek,
    Gemini,
}

/// Is the backend a chat-completion service, which takes whole batches?
pub open spec fn is_chat(backend: Backend) -> bool {
    match backend {
        Backend::OpenAI | Backend::Anthropic | Backend::DeepSeek | Backend::Gemini => true,
        _ => false,
    }
}

impl Backend {
    /// Whether this backend takes batches through a chat-completion call.
    pub fn is_chat(&self) -> (r: bool)
        ensures
            r == is_chat(*self),
    {
        match self {
            Backend::OpenAI | Backend::Anthropic | Backend::DeepSeek | Backend::Gemini => true,
            _ => false,
        }
    }
}

/// Why a translation request failed.
pub enum TranslateError {
    /// The backend needs an API key and none was given.
    MissingCredential,
    /// The regional backend needs a folder id and none was given.
    MissingRegion,
    /// A provider call failed; the backend and the provider's words.
    ProviderError(Backend, String),
    /// A provider's answer does not line up with what was sent.
    MalformedProviderResponse,
}

/// Everything a translation request is configured with, fixed for the
/// request.
pub struct TranslateSettings {
    pub backend: Backend,
    /// Model name; chat backends only.
    pub model: String,
    pub api_key: String,
    /// Folder id; regional backend only.
    pub folder_id: String,
    pub source_language: String,
    pub translation_language: String,
    pub project_context: String,
    pub local_context: String,
    /// Chat backends only.
    pub system_prompt: String,
    pub glossary: Vec<GlossaryEntry>,
    /// Token ceiling of one chat request.
    pub token_limit: u64,
    pub thinking: bool,
    /// Rewrite line breaks in the results as the in-line marker.
    pub normalize: bool,
}

/// The payload of one chat call: a batch of files with what the model needs
/// to know about them.
pub struct TranslationRequest {
    pub source_language: String,
    pub translation_language: String,
    pub project_context: String,
    pub local_context: String,
    pub glossary: Vec<GlossaryEntry>,
    pub files: TextBundle,
}

/// The calls a request makes, in order.
pub enum TranslationJob {
    /// One machine-translation call per string, in bundle order, after
    /// registering the glossary when `register_glossary` is set. `bundle`
    /// gives the shape of the answer.
    Plain { register_glossary: bool, texts: Vec<String>, bundle: TextBundle },
    /// One chat call per request.
    Chat { requests: Vec<TranslationRequest> },
}

/// The failure, if any, of the checks made before any call.
pub open spec fn preflight(
    backend: Backend,
    api_key: Seq<char>,
    folder_id: Seq<char>,
) -> Option<TranslateError> {
    if backend != Backend::Google && api_key.len() == 0 {
        Some(TranslateError::MissingCredential)
    } else if backend == Backend::Yandex && folder_id.len() == 0 {
        Some(TranslateError::MissingRegion)
    } else {
        None
    }
}

/// Checks made before any call: a key for every backend but the basic one,
/// and a folder id for the regional one.
pub fn validate(settings: &TranslateSettings) -> (r: Result<(), TranslateError>)
    ensures
        r is Ok <==> preflight(settings.backend, settings.api_key@, settings.folder_id@) is None,
        preflight(settings.backend, settings.api_key@, settings.folder_id@) == Some(
            TranslateError::MissingCredential,
        ) ==> r matches Err(TranslateError::MissingCredential),
        preflight(settings.backend, settings.api_key@, settings.folder_id@) == Some(
            TranslateError::MissingRegion,
        ) ==> r matches Err(TranslateError::MissingRegion),
{
    if settings.backend != Backend::Google && settings.api_key.as_str().unicode_len() == 0 {
        Err(TranslateError::MissingCredential)
    } else if settings.backend == Backend::Yandex
        && settings.folder_id.as_str().unicode_len() == 0 {
        Err(TranslateError::MissingRegion)
    } else {
        Ok(())
    }
}

/// The batches that a list of chat requests carries.
pub open spec fn request_bundles(requests: Seq<TranslationRequest>) -> Seq<TextBundle> {
    requests.map_values(|q: TranslationRequest| q.files)
}

/// Does `q` carry the languages, contexts and glossary of `settings`?
pub open spec fn request_matches(q: TranslationRequest, settings: TranslateSettings) -> bool {
    &&& q.source_language@ == settings.source_language@
    &&& q.translation_language@ == settings.translation_language@
    &&& q.project_context@ == settings.project_context@
    &&& q.local_context@ == settings.local_context@
    &&& q.glossary@ == settings.glossary@
}

/// A copy of a glossary.
pub fn copy_glossary(glossary: &Vec<GlossaryEntry>) -> (r: Vec<GlossaryEntry>)
    ensures
        r@ == glossary@,
{
    let mut out: Vec<GlossaryEntry> = Vec::new();
    let n = glossary.len();
    let mut i: usize = 0;
    while i < n
        invariant
            n == glossary@.len(),
            i <= n,
            out@ == glossary@.take(i as int),
        decreases n - i,
    {
        let e = &glossary[i];
        out.push(
            GlossaryEntry {
                term: e.term.clone(),
                translation: e.translation.clone(),
                note: e.note.clone(),
            },
        );
        i = i + 1;
        proof {
            assert(out@ == glossary@.take(i as int));
        }
    }
    proof {
        assert(glossary@.take(n as int) == glossary@);
    }
    out
}

/// Copies of the strings of `files`, file after file, block after block.
fn collect_texts(files: &Vec<FileEntry>) -> (r: Vec<String>)
    ensures
        views_of(r@) == file_strings(files@),
{
    let mut out: Vec<String> = Vec::new();
    let nf = files.len();
    let mut i: usize = 0;
    while i < nf
        invariant
            nf == files@.len(),
            i <= nf,
            views_of(out@) == file_strings(files@.take(i as int)),
        decreases nf - i,
    {
        let blocks = &files[i].blocks;
        let nb = blocks.len();
        let mut j: usize = 0;
        let ghost start = views_of(out@);
        while j < nb
            invariant
                nb == blocks@.len(),
                j <= nb,
                views_of(out@) == start + block_strings(blocks@.take(j as int)),
            decreases nb - j,
        {
            let strings = &blocks[j].strings;
            let ns = strings.len();
            let mut k: usize = 0;
            let ghost mid = views_of(out@);
            while k < ns
                invariant
                    ns == strings@.len(),
                    k <= ns,
                    views_of(out@) == mid + views_of(strings@.take(k as int)),
                decreases ns - k,
            {
                let ghost before = out@;
                out.push(strings[k].clone());
                proof {
                    assert(strings@.take(k + 1) == strings@.take(k as int).push(strings@[k as int]));
                    assert(views_of(out@) =~= views_of(before).push(strings@[k as int]@));
                    assert(views_of(strings@.take(k + 1)) =~= views_of(strings@.take(k as int)).push(
                        strings@[k as int]@,
                    ));
                }
                k = k + 1;
            }
            proof {
                assert(strings@.take(ns as int) == strings@);
                lemma_block_strings_step(blocks@, j as int);
            }
            j = j + 1;
        }
        proof {
            assert(blocks@.take(nb as int) == blocks@);
            lemma_file_strings_step(files@, i as int);
        }
        i = i + 1;
    }
    proof {
        assert(files@.take(nf as int) == files@);
    }
    out
}

/// Validates the settings, then lays out the calls: for machine translation
/// one per string (after a glossary registration for the glossary backend);
/// for chat backends one per batch of whole files, planned against the token
/// limit from `file_tokens`, the token count of each file.
pub fn prepare(settings: &TranslateSettings, bundle: TextBundle, file_tokens: &Vec<u64>) -> (r:
    Result<TranslationJob, TranslateError>)
    requires
        is_chat(settings.backend) ==> file_tokens.len() == bundle.files.len(),
    ensures
        preflight(settings.backend, settings.api_key@, settings.folder_id@) matches Some(e) ==> r
            == Err::<TranslationJob, TranslateError>(e),
        preflight(settings.backend, settings.api_key@, settings.folder_id@) is None && !is_chat(
            settings.backend,
        ) ==> (r matches Ok(TranslationJob::Plain { register_glossary, texts, bundle: b }) && (
        register_glossary <==> settings.backend == Backend::DeepL) && views_of(texts@)
            == file_strings(bundle.files@) && b == bundle),
        preflight(settings.backend, settings.api_key@, settings.folder_id@) is None && is_chat(
            settings.backend,
        ) ==> (r matches Ok(TranslationJob::Chat { requests }) && is_greedy_plan(
            bundle.files@,
            file_tokens@,
            settings.token_limit,
            request_bundles(requests@),
        ) && forall|j: int|
            0 <= j < requests.len() ==> request_matches(#[trigger] requests@[j], *settings)),
{
    match validate(settings) {
        Err(TranslateError::MissingCredential) => return Err(TranslateError::MissingCredential),
        Err(_) => return Err(TranslateError::MissingRegion),
        Ok(()) => {},
    }
    if !settings.backend.is_chat() {
        let texts = collect_texts(&bundle.files);
        let register_glossary = settings.backend == Backend::DeepL;
        return Ok(TranslationJob::Plain { register_glossary, texts, bundle });
    }
    let batches = plan_batches(bundle, file_tokens, settings.token_limit);
    let ghost planned = batches@;
    let mut requests: Vec<TranslationRequest> = Vec::new();
    for files in it: batches.into_iter()
        invariant
            it.seq() == planned,
            request_bundles(requests@) == planned.take(it.index() as int),
            forall|j: int| 0 <= j < requests.len() ==> request_matches(#[trigger] requests@[j], *settings),
    {
        let q = TranslationRequest {
            source_language: settings.source_language.clone(),
            translation_language: settings.translation_language.clone(),
            project_context: settings.project_context.clone(),
            local_context: settings.local_context.clone(),
            glossary: copy_glossary(&settings.glossary),
            files,
        };
        let ghost before = requests@;
        requests.push(q);
        proof {
            assert(files == planned[it.index() as int]);
            assert(planned.take(it.index() + 1) == planned.take(it.index() as int).push(files));
            assert(request_bundles(requests@) =~= request_bundles(before).push(files));
        }
    }
    proof {
        assert(planned.take(planned.len() as int) == planned);
    }
    Ok(TranslationJob::Chat { requests })
}

} // verus!
