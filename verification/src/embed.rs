//! The embedder's settings: its options, model, dimension and model cache.

use vstd::prelude::*;

use crate::paths::{join, spec_join};

verus! {

/// Runtime options of the embedder.
#[derive(Clone, Debug)]
pub struct EmbedderOptions {
    /// Show the model download's progress bar on first use.
    pub show_download_progress: bool,
    /// Where to cache the model (the user's cache directory when `None`).
    pub cache_dir: Option<String>,
}

impl Default for EmbedderOptions {
    /// The interactive defaults: progress shown, default cache.
    fn default() -> (r: EmbedderOptions)
        ensures
            r.show_download_progress,
            r.cache_dir is None,
    {
        EmbedderOptions { show_download_progress: true, cache_dir: None }
    }
}

impl EmbedderOptions {
    /// The options of a silent embedder (for stdio servers): no progress
    /// bar, default cache.
    pub fn silent() -> (r: EmbedderOptions)
        ensures
            !r.show_download_progress,
            r.cache_dir is None,
    {
        EmbedderOptions { show_download_progress: false, cache_dir: None }
    }
}

/// The dimension of the model's vectors.
pub const EMBEDDING_DIM: usize = 768;

/// The identity of the model.
pub const MODEL_ID: &'static str = "nomic-embed-text-v1.5";

/// `dirs::cache_dir`: the user's cache directory, when it can be found, as
/// text. It depends on the environment, so nothing is stated of it.
#[verifier::external_body]
fn system_cache_dir() -> Option<String> {
    dirs::cache_dir().map(|p| p.to_string_lossy().into_owned())
}

/// Where the model is cached: the configured directory, else
/// `<cache>/ctx/fastembed` under the user's cache directory (or under
/// `.fastembed_cache` when there is none).
pub open spec fn spec_model_cache_dir(configured: Option<Seq<char>>, system: Option<Seq<char>>) -> Seq<
    char,
> {
    match configured {
        Some(c) => c,
        None => {
            let base = match system {
                Some(s) => s,
                None => ".fastembed_cache"@,
            };
            spec_join(spec_join(base, "ctx"@), "fastembed"@)
        },
    }
}

/// The model cache directory for the options, given the user's cache
/// directory.
pub fn model_cache_dir_in(opts: &EmbedderOptions, system: Option<String>) -> (r: String)
    ensures
        r@ == spec_model_cache_dir(crate::types::opt_view(opts.cache_dir), crate::types::opt_view(system)),
{
    match &opts.cache_dir {
        Some(c) => c.clone(),
        None => {
            let base = match system {
                Some(s) => s,
                None => String::from_str(".fastembed_cache"),
            };
            let ctx = join(base.as_str(), "ctx");
            join(ctx.as_str(), "fastembed")
        },
    }
}

/// The model cache directory for the options.
pub fn model_cache_dir(opts: &EmbedderOptions) -> (r: String)
    ensures
        opts.cache_dir matches Some(c) ==> r@ == c@,
        opts.cache_dir is None ==> exists|system: Option<Seq<char>>|
            r@ == spec_model_cache_dir(None, system),
{
    let system = system_cache_dir();
    let r = model_cache_dir_in(opts, system);
    proof {
        if opts.cache_dir is None {
            let s = crate::types::opt_view(system);
            assert(r@ == spec_model_cache_dir(None, s));
        }
    }
    r
}

} // verus!
