use vstd::prelude::*;
use crate::paths::{join_path, join_path_str, path_exists};
use crate::text::owned;

verus! {

/// One downloadable model and whether it is installed.
pub struct ModelStatus {
    pub name: String,
    pub model_id: String,
    pub installed: bool,
    pub size_bytes: Option<u64>,
    pub required: bool,
    pub download_url: Option<String>,
}

/// The models the application knows about.
pub struct ModelRegistry;

/// Display name, identifier (its directory), file, size, whether required,
/// and download address of model `k` of the catalogue.
pub open spec fn catalog_entry(k: int) -> (Seq<char>, Seq<char>, Seq<char>, u64, bool, Seq<char>) {
    if k == 0 {
        ("SenseVoice-Small (int8)"@, "sense-voice-small"@, "model.int8.onnx"@, 230_000_000u64, true,
            "https://modelscope.cn/models/k2-fsa/sense-voice-small-onnx/raw/master/model.int8.onnx"@)
    } else if k == 1 {
        ("Paraformer-Large (int8)"@, "paraformer-large"@, "model.int8.onnx"@, 227_000_000u64, false,
            "https://modelscope.cn/models/k2-fsa/paraformer-large-onnx/raw/master/model.int8.onnx"@)
    } else if k == 2 {
        ("Silero-VAD"@, "silero-vad"@, "silero_vad.onnx"@, 2_200_000u64, true,
            "https://modelscope.cn/models/k2-fsa/sherpa-onnx-silero-vad-onnx/raw/master/silero_vad.onnx"@)
    } else {
        ("CT-Transformer (\u{6807}\u{70b9})"@, "punct-ct-transformer"@, "model.onnx"@, 100_000_000u64, false,
            "https://modelscope.cn/models/k2-fsa/punct-ct-transformer-onnx/raw/master/model.onnx"@)
    }
}

fn catalog_entry_exec(k: usize) -> (r: (&'static str, &'static str, &'static str, u64, bool, &'static str))
    requires
        k < 4,
    ensures
        (r.0@, r.1@, r.2@, r.3, r.4, r.5@) == catalog_entry(k as int),
{
    if k == 0 {
        ("SenseVoice-Small (int8)", "sense-voice-small", "model.int8.onnx", 230_000_000u64, true,
            "https://modelscope.cn/models/k2-fsa/sense-voice-small-onnx/raw/master/model.int8.onnx")
    } else if k == 1 {
        ("Paraformer-Large (int8)", "paraformer-large", "model.int8.onnx", 227_000_000u64, false,
            "https://modelscope.cn/models/k2-fsa/paraformer-large-onnx/raw/master/model.int8.onnx")
    } else if k == 2 {
        ("Silero-VAD", "silero-vad", "silero_vad.onnx", 2_200_000u64, true,
            "https://modelscope.cn/models/k2-fsa/sherpa-onnx-silero-vad-onnx/raw/master/silero_vad.onnx")
    } else {
        ("CT-Transformer (\u{6807}\u{70b9})", "punct-ct-transformer", "model.onnx", 100_000_000u64, false,
            "https://modelscope.cn/models/k2-fsa/punct-ct-transformer-onnx/raw/master/model.onnx")
    }
}

/// The file whose presence shows that model `k` is installed under `dir`.
pub open spec fn model_file(dir: Seq<char>, k: int) -> Seq<char> {
    join_path(join_path(dir, catalog_entry(k).1), catalog_entry(k).2)
}

/// Entry `k` describes catalogue model `k`, with `installed` as given.
pub open spec fn is_catalog_status(m: ModelStatus, k: int, installed: bool) -> bool {
    let e = catalog_entry(k);
    &&& m.name@ == e.0
    &&& m.model_id@ == e.1
    &&& m.installed == installed
    &&& m.size_bytes == Some(e.3)
    &&& m.required == e.4
    &&& m.download_url matches Some(u) && u@ == e.5
}

/// The path checked for model `k` under `models_dir`.
pub fn model_file_path(models_dir: &str, k: usize) -> (r: String)
    requires
        k < 4,
    ensures
        r@ == model_file(models_dir@, k as int),
{
    let e = catalog_entry_exec(k);
    let d = join_path_str(models_dir, e.1);
    join_path_str(d.as_str(), e.2)
}

impl ModelRegistry {
    /// The catalogue with the given installation flags, in catalogue order.
    pub fn catalog(installed: &[bool]) -> (r: Vec<ModelStatus>)
        requires
            installed.len() == 4,
        ensures
            r@.len() == 4,
            forall|k: int| 0 <= k < 4 ==> is_catalog_status(#[trigger] r@[k], k, installed@[k]),
    {
        let mut r: Vec<ModelStatus> = Vec::new();
        let mut k: usize = 0;
        while k < 4
            invariant
                k <= 4,
                installed.len() == 4,
                r@.len() == k,
                forall|j: int| 0 <= j < k ==> is_catalog_status(#[trigger] r@[j], j, installed@[j]),
            decreases 4 - k,
        {
            let e = catalog_entry_exec(k);
            r.push(ModelStatus {
                name: owned(e.0),
                model_id: owned(e.1),
                installed: installed[k],
                size_bytes: Some(e.3),
                required: e.4,
                download_url: Some(owned(e.5)),
            });
            k = k + 1;
        }
        r
    }

    /// Lists the known models under `models_dir`, each marked installed when
    /// its model file (`model_file`) is on disk at the time of the call.
    pub fn list_models(models_dir: &str) -> (r: Vec<ModelStatus>)
        ensures
            r@.len() == 4,
            forall|k: int| 0 <= k < 4 ==> is_catalog_status(#[trigger] r@[k], k, r@[k].installed),
    {
        let mut installed: Vec<bool> = Vec::new();
        let mut k: usize = 0;
        while k < 4
            invariant
                k <= 4,
                installed@.len() == k,
            decreases 4 - k,
        {
            let p = model_file_path(models_dir, k);
            installed.push(path_exists(p.as_str()));
            k = k + 1;
        }
        Self::catalog(&installed)
    }

    /// The models directory, relative to the application's working directory.
    pub fn default_models_dir() -> (r: String)
        ensures
            r@ == "./models"@,
    {
        owned("./models")
    }
}

} // verus!
