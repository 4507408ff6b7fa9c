//! Bookkeeping for an on-device language model: whether one is loaded,
//! what is known of it, and the thread and context settings.

use vstd::prelude::*;

verus! {

/// Relies on `num_cpus::get`, documented to return at least 1.
#[verifier::external_body]
fn logical_cpus() -> (r: usize)
    ensures
        r >= 1,
{
    num_cpus::get()
}

/// Most threads the manager uses by default.
pub const DEFAULT_THREAD_CAP: usize = 4;

/// Most threads a caller may set.
pub const MAX_THREADS: usize = 8;

/// Default context size, in tokens.
pub const DEFAULT_CONTEXT_SIZE: usize = 2048;

/// Largest context size a caller may set.
pub const MAX_CONTEXT_SIZE: usize = 4096;

/// What is known of a loaded model.
#[derive(Debug, PartialEq, Eq)]
pub struct ModelInfo {
    pub path: String,
    pub size_mb: Option<u64>,
    pub loaded_at: Option<u64>,
    pub context_size: Option<usize>,
    pub n_threads: Option<usize>,
}

fn clone_info(i: &Option<ModelInfo>) -> (r: Option<ModelInfo>)
    ensures
        r == *i,
{
    match i {
        Some(m) => Some(ModelInfo {
            path: m.path.clone(),
            size_mb: m.size_mb,
            loaded_at: m.loaded_at,
            context_size: m.context_size,
            n_threads: m.n_threads,
        }),
        None => None,
    }
}

/// The inference context of a loaded model.
pub struct LlamaContext {}

/// Holds at most one loaded model.
pub struct LlamaModelManager {
    model_path: Option<String>,
    context: Option<LlamaContext>,
    model_info: Option<ModelInfo>,
    n_threads: usize,
    context_size: usize,
}

pub struct LlamaView {
    pub model_path: Option<Seq<char>>,
    pub loaded: bool,
    pub model_info: Option<ModelInfo>,
    pub n_threads: usize,
    pub context_size: usize,
}

impl View for LlamaModelManager {
    type V = LlamaView;

    closed spec fn view(&self) -> LlamaView {
        LlamaView {
            model_path: match self.model_path {
                Some(p) => Some(p@),
                None => None,
            },
            loaded: self.context.is_some(),
            model_info: self.model_info,
            n_threads: self.n_threads,
            context_size: self.context_size,
        }
    }
}

impl LlamaModelManager {
    /// No model loaded; as many threads as logical CPUs, at most 4, and a
    /// context of 2048.
    pub fn new() -> (r: Self)
        ensures
            !r@.loaded,
            r@.model_path.is_none(),
            r@.model_info.is_none(),
            1 <= r@.n_threads <= DEFAULT_THREAD_CAP,
            r@.context_size == DEFAULT_CONTEXT_SIZE,
    {
        let cpus = logical_cpus();
        let n_threads = if cpus < DEFAULT_THREAD_CAP { cpus } else { DEFAULT_THREAD_CAP };
        LlamaModelManager {
            model_path: None,
            context: None,
            model_info: None,
            n_threads,
            context_size: DEFAULT_CONTEXT_SIZE,
        }
    }

    pub fn is_loaded(&self) -> (r: bool)
        ensures
            r == self@.loaded,
    {
        self.context.is_some()
    }

    pub fn get_model_info(&self) -> (r: Option<ModelInfo>)
        ensures
            r == self@.model_info,
    {
        clone_info(&self.model_info)
    }

    /// Records the model at `path` as loaded, with its size in megabytes (if
    /// known) and the load time in Unix seconds.
    pub fn load_model_with(&mut self, path: String, size_mb: Option<u64>, loaded_at: u64) -> (r: Result<ModelInfo, String>)
        ensures
            r == Ok::<ModelInfo, String>(ModelInfo {
                path,
                size_mb,
                loaded_at: Some(loaded_at),
                context_size: Some(old(self)@.context_size),
                n_threads: Some(old(self)@.n_threads),
            }),
            final(self)@ == (LlamaView {
                model_path: Some(path@),
                loaded: true,
                model_info: Some(r->Ok_0),
                ..old(self)@
            }),
    {
        let info = ModelInfo {
            path: path.clone(),
            size_mb,
            loaded_at: Some(loaded_at),
            context_size: Some(self.context_size),
            n_threads: Some(self.n_threads),
        };
        self.model_path = Some(path);
        self.model_info = Some(ModelInfo { path: info.path.clone(), ..info });
        self.context = Some(LlamaContext {});
        Ok(info)
    }

    /// Forgets the loaded model.
    pub fn unload_model(&mut self) -> (r: Result<(), String>)
        ensures
            r.is_ok(),
            final(self)@ == (LlamaView { model_path: None, loaded: false, model_info: None, ..old(self)@ }),
    {
        self.context = None;
        self.model_path = None;
        self.model_info = None;
        Ok(())
    }

    /// Sets the thread count, capped at 8; the model's info follows.
    pub fn set_threads(&mut self, n_threads: usize)
        ensures
            final(self)@.n_threads == if n_threads < MAX_THREADS { n_threads } else { MAX_THREADS },
            final(self)@.model_info == match old(self)@.model_info {
                Some(i) => Some(ModelInfo { n_threads: Some(final(self)@.n_threads), ..i }),
                None => None,
            },
            final(self)@.model_path == old(self)@.model_path,
            final(self)@.loaded == old(self)@.loaded,
            final(self)@.context_size == old(self)@.context_size,
    {
        self.n_threads = if n_threads < MAX_THREADS { n_threads } else { MAX_THREADS };
        let updated = match &self.model_info {
            Some(i) => Some(ModelInfo {
                path: i.path.clone(),
                size_mb: i.size_mb,
                loaded_at: i.loaded_at,
                context_size: i.context_size,
                n_threads: Some(self.n_threads),
            }),
            None => None,
        };
        self.model_info = updated;
    }

    /// Sets the context size, capped at 4096; the model's info follows.
    pub fn set_context_size(&mut self, context_size: usize)
        ensures
            final(self)@.context_size == if context_size < MAX_CONTEXT_SIZE { context_size } else { MAX_CONTEXT_SIZE },
            final(self)@.model_info == match old(self)@.model_info {
                Some(i) => Some(ModelInfo { context_size: Some(final(self)@.context_size), ..i }),
                None => None,
            },
            final(self)@.model_path == old(self)@.model_path,
            final(self)@.loaded == old(self)@.loaded,
            final(self)@.n_threads == old(self)@.n_threads,
    {
        self.context_size = if context_size < MAX_CONTEXT_SIZE { context_size } else { MAX_CONTEXT_SIZE };
        let updated = match &self.model_info {
            Some(i) => Some(ModelInfo {
                path: i.path.clone(),
                size_mb: i.size_mb,
                loaded_at: i.loaded_at,
                context_size: Some(self.context_size),
                n_threads: i.n_threads,
            }),
            None => None,
        };
        self.model_info = updated;
    }

    /// Estimated memory use in megabytes: twice the model's size (saturating),
    /// 0 where no size is known.
    pub fn get_memory_usage_mb(&self) -> (r: u64)
        ensures
            r == match self@.model_info {
                Some(i) => match i.size_mb {
                    Some(s) => if s <= u64::MAX / 2 { (s * 2) as u64 } else { u64::MAX },
                    None => 0,
                },
                None => 0,
            },
    {
        match &self.model_info {
            Some(info) => {
                let s = match info.size_mb {
                    Some(s) => s,
                    None => 0,
                };
                if s <= u64::MAX / 2 {
                    s * 2
                } else {
                    u64::MAX
                }
            },
            None => 0,
        }
    }
}

} // verus!
