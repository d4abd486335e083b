use vstd::prelude::*;
use crate::export::{export_format, export_to_string};
use crate::paths::{join_path, join_path_str};
use crate::text::{
    chars_of, contains, contains_seq, decimal, lines, lines_of, owned, push_all, push_decimal, push_str, push_string,
    string_of, string_views, trim, trim_chars, views,
};
use crate::{AppConfig, TranscriptionResult};

verus! {

/// Installation state of one model, as the model check reports it.
pub struct ModelStatus {
    pub name: String,
    pub installed: bool,
    pub size_bytes: Option<u64>,
    pub required: bool,
}

/// Outcome of the environment check: every item, and whether all passed.
pub struct EnvCheck {
    pub ok: bool,
    pub items: Vec<EnvCheckItem>,
}

/// One line of the environment check.
pub struct EnvCheckItem {
    pub name: String,
    pub passed: bool,
    pub detail: String,
}

/// Display name, directory, expected file, size and whether required, of the
/// models that the model check looks for.
pub open spec fn check_entry(k: int) -> (Seq<char>, Seq<char>, Seq<char>, u64, bool) {
    if k == 0 {
        ("SenseVoice-Small (\u{5feb}\u{901f}\u{5f15}\u{64ce})"@, "sense-voice-small"@, "model.int8.onnx"@, 233_000_000u64, true)
    } else if k == 1 {
        ("Paraformer-Large (\u{7cbe}\u{51c6}\u{5f15}\u{64ce})"@, "paraformer-large"@, "model.int8.onnx"@, 231_000_000u64, false)
    } else if k == 2 {
        ("Silero-VAD (\u{8bed}\u{97f3}\u{5206}\u{6bb5})"@, "silero-vad"@, "silero_vad.onnx"@, 1_000_000u64, true)
    } else {
        ("CT-Transformer (\u{6807}\u{70b9})"@, "punct-ct-transformer"@, "model.onnx"@, 100_000_000u64, false)
    }
}

fn check_entry_exec(k: usize) -> (r: (&'static str, &'static str, &'static str, u64, bool))
    requires
        k < 4,
    ensures
        (r.0@, r.1@, r.2@, r.3, r.4) == check_entry(k as int),
{
    if k == 0 {
        ("SenseVoice-Small (\u{5feb}\u{901f}\u{5f15}\u{64ce})", "sense-voice-small", "model.int8.onnx", 233_000_000u64, true)
    } else if k == 1 {
        ("Paraformer-Large (\u{7cbe}\u{51c6}\u{5f15}\u{64ce})", "paraformer-large", "model.int8.onnx", 231_000_000u64, false)
    } else if k == 2 {
        ("Silero-VAD (\u{8bed}\u{97f3}\u{5206}\u{6bb5})", "silero-vad", "silero_vad.onnx", 1_000_000u64, true)
    } else {
        ("CT-Transformer (\u{6807}\u{70b9})", "punct-ct-transformer", "model.onnx", 100_000_000u64, false)
    }
}

/// The directory and the file that the model check looks for, for model `k`.
pub fn model_check_target(k: usize) -> (r: (&'static str, &'static str))
    requires
        k < 4,
    ensures
        r.0@ == check_entry(k as int).1,
        r.1@ == check_entry(k as int).2,
{
    let e = check_entry_exec(k);
    (e.1, e.2)
}

/// The model check's report, in order, with the given installation flags.
pub fn model_check_report(installed: &[bool]) -> (r: Vec<ModelStatus>)
    requires
        installed.len() == 4,
    ensures
        r@.len() == 4,
        forall|k: int| 0 <= k < 4 ==> {
            let m = #[trigger] r@[k];
            &&& m.name@ == check_entry(k).0
            &&& m.installed == installed@[k]
            &&& m.size_bytes == Some(check_entry(k).3)
            &&& m.required == check_entry(k).4
        },
{
    let mut r: Vec<ModelStatus> = Vec::new();
    let mut k: usize = 0;
    while k < 4
        invariant
            k <= 4,
            installed.len() == 4,
            r@.len() == k,
            forall|j: int| 0 <= j < k ==> {
                let m = #[trigger] r@[j];
                &&& m.name@ == check_entry(j).0
                &&& m.installed == installed@[j]
                &&& m.size_bytes == Some(check_entry(j).3)
                &&& m.required == check_entry(j).4
            },
        decreases 4 - k,
    {
        let e = check_entry_exec(k);
        r.push(ModelStatus { name: owned(e.0), installed: installed[k], size_bytes: Some(e.3), required: e.4 });
        k = k + 1;
    }
    r
}

/// The application's configuration.
pub fn get_app_config() -> (r: Result<AppConfig, String>)
    ensures
        r matches Ok(c) && c.models_dir@ == "./models"@ && c.output_dir@ == "./output"@ && c.ffmpeg_path@
            == "ffmpeg"@ && c.download_mirror@ == "https://www.modelscope.cn"@,
{
    Ok(AppConfig {
        models_dir: owned("./models"),
        output_dir: owned("./output"),
        ffmpeg_path: owned("ffmpeg"),
        download_mirror: owned("https://www.modelscope.cn"),
    })
}

/// Exports a transcription for preview; an unknown format is reported as
/// "Export: Unsupported format: <format>".
pub fn export_result_string(format: &str, result: &TranscriptionResult) -> (r: Result<String, String>)
    ensures
        export_format(*result, format@) matches Some(c) ==> (r matches Ok(s) && s@ == c),
        export_format(*result, format@) is None ==> (r matches Err(e) && e@ == "Export: Unsupported format: "@
            + format@),
{
    match export_to_string(result, format) {
        Ok(s) => Ok(s),
        Err(e) => {
            let mut v: Vec<char> = Vec::new();
            push_str(&mut v, "Export: ");
            push_str(&mut v, e.as_str());
            assert(v@ =~= "Export: "@ + ("Unsupported format: "@ + format@)) by {
                reveal_strlit("Export: Unsupported format: ");
                reveal_strlit("Export: ");
                reveal_strlit("Unsupported format: ");
            }
            assert(("Export: "@ + "Unsupported format: "@) =~= "Export: Unsupported format: "@) by {
                reveal_strlit("Export: Unsupported format: ");
                reveal_strlit("Export: ");
                reveal_strlit("Unsupported format: ");
            }
            Err(string_of(&v))
        },
    }
}

/// The models directory of the bundled resources.
pub fn asr_models_dir(resource_dir: &str) -> (r: String)
    ensures
        r@ == join_path(resource_dir@, "models"@),
{
    join_path_str(resource_dir, "models")
}

/// Arguments of the recognition worker: the WAV file, the Paraformer model,
/// and the models directory.
pub open spec fn worker_argv(wav: Seq<char>, models_dir: Seq<char>) -> Seq<Seq<char>> {
    seq!["--wav"@, wav, "--model"@, "paraformer"@, "--models-dir"@, models_dir]
}

pub fn asr_worker_args(wav_path: &str, models_dir: &str) -> (r: Vec<String>)
    ensures
        string_views(r@) == worker_argv(wav_path@, models_dir@),
{
    let mut v: Vec<String> = Vec::new();
    push_string(&mut v, "--wav");
    push_string(&mut v, wav_path);
    push_string(&mut v, "--model");
    push_string(&mut v, "paraformer");
    push_string(&mut v, "--models-dir");
    push_string(&mut v, models_dir);
    assert(string_views(v@) =~= worker_argv(wav_path@, models_dir@));
    v
}

/// The checks before the recognition worker runs, in order: the worker, the
/// WAV file, the models directory.
pub open spec fn preflight(
    worker_found: bool,
    worker: Seq<char>,
    wav_found: bool,
    wav: Seq<char>,
    models_found: bool,
    models_dir: Seq<char>,
) -> Result<(), Seq<char>> {
    if !worker_found {
        Err("ASR worker not found at: "@ + worker)
    } else if !wav_found {
        Err("WAV file not found: "@ + wav)
    } else if !models_found {
        Err("Models dir not found: "@ + models_dir)
    } else {
        Ok(())
    }
}

fn concat_str(a: &str, b: &str) -> (r: String)
    ensures
        r@ == a@ + b@,
{
    let mut v: Vec<char> = Vec::new();
    push_str(&mut v, a);
    push_str(&mut v, b);
    string_of(&v)
}

pub fn asr_preflight(
    worker_found: bool,
    worker: &str,
    wav_found: bool,
    wav: &str,
    models_found: bool,
    models_dir: &str,
) -> (r: Result<(), String>)
    ensures
        r is Ok <==> preflight(worker_found, worker@, wav_found, wav@, models_found, models_dir@) is Ok,
        r matches Err(e) ==> preflight(worker_found, worker@, wav_found, wav@, models_found, models_dir@) == Err::<(), Seq<char>>(e@),
{
    if !worker_found {
        Err(concat_str("ASR worker not found at: ", worker))
    } else if !wav_found {
        Err(concat_str("WAV file not found: ", wav))
    } else if !models_found {
        Err(concat_str("Models dir not found: ", models_dir))
    } else {
        Ok(())
    }
}

/// `{:?}` of an `Option<i32>`.
pub open spec fn debug_code(c: Option<i32>) -> Seq<char> {
    match c {
        Some(v) => "Some("@ + (if v < 0 { seq!['-'] + decimal((0 - v) as nat) } else { decimal(v as nat) }) + ")"@,
        None => "None"@,
    }
}

fn push_debug_code(out: &mut Vec<char>, c: Option<i32>)
    ensures
        final(out)@ == old(out)@ + debug_code(c),
{
    match c {
        Some(v) => {
            push_str(out, "Some(");
            if v < 0 {
                out.push('-');
                let m: i64 = 0 - (v as i64);
                push_decimal(out, m as u64);
            } else {
                push_decimal(out, v as u64);
            }
            push_str(out, ")");
        },
        None => push_str(out, "None"),
    }
    assert(final(out)@ =~= old(out)@ + debug_code(c));
}

/// What the recognition worker's run amounts to: a failed exit is reported
/// with its code and both outputs; output that is not UTF-8 is an error (its
/// conversion error text given in `stdout_text`); blank output is an error;
/// otherwise the output itself.
pub open spec fn worker_outcome(
    success: bool,
    code: Option<i32>,
    stdout_lossy: Seq<char>,
    stderr_lossy: Seq<char>,
    stdout_text: Result<Seq<char>, Seq<char>>,
) -> Result<Seq<char>, Seq<char>> {
    if !success {
        Err("ASR worker exited with code: "@ + debug_code(code) + "\nstdout: "@ + stdout_lossy + "\nstderr: "@ + stderr_lossy)
    } else {
        match stdout_text {
            Err(e) => Err("Invalid UTF-8 in ASR output: "@ + e),
            Ok(t) => if trim(t).len() == 0 {
                Err("ASR worker completed but produced no output. The model may have failed silently."@)
            } else {
                Ok(t)
            },
        }
    }
}

pub open spec fn result_view(r: Result<String, String>) -> Result<Seq<char>, Seq<char>> {
    match r {
        Ok(s) => Ok(s@),
        Err(e) => Err(e@),
    }
}

pub fn asr_outcome(
    success: bool,
    code: Option<i32>,
    stdout_lossy: &str,
    stderr_lossy: &str,
    stdout_text: Result<String, String>,
) -> (r: Result<String, String>)
    ensures
        result_view(r) == worker_outcome(success, code, stdout_lossy@, stderr_lossy@, result_view(stdout_text)),
{
    if !success {
        let mut v: Vec<char> = Vec::new();
        push_str(&mut v, "ASR worker exited with code: ");
        push_debug_code(&mut v, code);
        push_str(&mut v, "\nstdout: ");
        push_str(&mut v, stdout_lossy);
        push_str(&mut v, "\nstderr: ");
        push_str(&mut v, stderr_lossy);
        return Err(string_of(&v));
    }
    match stdout_text {
        Err(e) => Err(concat_str("Invalid UTF-8 in ASR output: ", e.as_str())),
        Ok(t) => {
            let trimmed = trim_chars(&chars_of(t.as_str()));
            if trimmed.len() == 0 {
                Err(owned("ASR worker completed but produced no output. The model may have failed silently."))
            } else {
                Ok(t)
            }
        },
    }
}

/// How a tool run for the environment check ended: `None` when it could not
/// be started.
pub struct ToolRun {
    pub success: bool,
    pub stdout: String,
}

/// The end-to-end recognition test of the environment check.
pub enum E2eRun {
    Skipped,
    SpawnFailed(String),
    Finished { success: bool, code: Option<i32>, stdout: String, stderr: String },
}

/// What the environment check found out, as plain values.
pub struct EnvProbe {
    pub worker_path: String,
    pub worker_exists: bool,
    pub resource_dir: String,
    pub resource_exists: bool,
    pub models_dir: String,
    pub models_exist: bool,
    pub paraformer_exists: bool,
    pub sensevoice_exists: bool,
    pub ffmpeg: Option<ToolRun>,
    pub python: Option<ToolRun>,
    pub e2e: E2eRun,
}

/// Whether the end-to-end test can run: the worker and the models are there.
pub fn e2e_wanted(worker_exists: bool, models_exist: bool) -> (b: bool)
    ensures
        b == (worker_exists && models_exist),
{
    worker_exists && models_exist
}

pub open spec fn bool_text(b: bool) -> Seq<char> {
    if b { "true"@ } else { "false"@ }
}

/// At most the first 200 characters.
pub open spec fn preview(s: Seq<char>) -> Seq<char> {
    if s.len() <= 200 { s } else { s.take(200) }
}

pub open spec fn pass_text() -> Seq<char> {
    "E2E transcription: PASS"@
}

/// The verdict of the end-to-end test: a pass needs a successful run whose
/// output holds both `"type"` and `"result"`.
pub open spec fn e2e_verdict(e: E2eRun) -> Seq<char> {
    match e {
        E2eRun::Skipped => "SKIP (missing dependencies)"@,
        E2eRun::SpawnFailed(m) => "E2E: spawn failed: "@ + m@,
        E2eRun::Finished { success, code, stdout, stderr } => if success {
            if contains_seq(stdout@, "\"type\""@) && contains_seq(stdout@, "\"result\""@) {
                pass_text()
            } else {
                "E2E: no result JSON. stdout: "@ + preview(stdout@)
            }
        } else {
            "E2E: exit code "@ + debug_code(code) + ", stderr: "@ + preview(stderr@)
        },
    }
}

pub open spec fn item_view(i: EnvCheckItem) -> (Seq<char>, bool, Seq<char>) {
    (i.name@, i.passed, i.detail@)
}

/// The lines of the environment check, in order: worker, resource directory,
/// models, FFmpeg, Python, end-to-end test.
pub open spec fn env_items(p: EnvProbe) -> Seq<(Seq<char>, bool, Seq<char>)> {
    seq![
        ("asr_worker.exe"@, p.worker_exists, p.worker_path@),
        ("Resource directory"@, p.resource_exists, p.resource_dir@),
        ("ASR models"@, p.models_exist, if p.models_exist {
            "paraformer: "@ + bool_text(p.paraformer_exists) + ", sensevoice: "@ + bool_text(p.sensevoice_exists)
        } else {
            p.models_dir@
        }),
        ("FFmpeg"@, p.ffmpeg matches Some(t) && t.success, match p.ffmpeg {
            Some(t) => if lines(t.stdout@).len() > 0 { lines(t.stdout@)[0] } else { "not found"@ },
            None => "not found"@,
        }),
        ("Python (dev)"@, p.python matches Some(t) && t.success, match p.python {
            Some(t) => trim(t.stdout@),
            None => "not found"@,
        }),
        ("E2E transcription test"@, e2e_verdict(p.e2e) == pass_text(), e2e_verdict(p.e2e)),
    ]
}

fn push_preview(out: &mut Vec<char>, s: &str)
    ensures
        final(out)@ == old(out)@ + preview(s@),
{
    let c = chars_of(s);
    let n = if c.len() <= 200 { c.len() } else { 200 };
    let mut i: usize = 0;
    while i < n
        invariant
            i <= n <= c.len(),
            n == if c@.len() <= 200 { c@.len() } else { 200 },
            out@ == old(out)@ + c@.take(i as int),
        decreases n - i,
    {
        out.push(c[i]);
        assert(c@.take(i + 1) == c@.take(i as int).push(c@[i as int]));
        i = i + 1;
    }
    assert(c@.take(n as int) =~= preview(s@));
}

fn e2e_verdict_exec(e: &E2eRun) -> (r: String)
    ensures
        r@ == e2e_verdict(*e),
{
    match e {
        E2eRun::Skipped => owned("SKIP (missing dependencies)"),
        E2eRun::SpawnFailed(m) => concat_str("E2E: spawn failed: ", m.as_str()),
        E2eRun::Finished { success, code, stdout, stderr } => {
            let mut v: Vec<char> = Vec::new();
            if *success {
                let out = chars_of(stdout.as_str());
                if contains(&out, &chars_of("\"type\"")) && contains(&out, &chars_of("\"result\"")) {
                    return owned("E2E transcription: PASS");
                }
                push_str(&mut v, "E2E: no result JSON. stdout: ");
                push_preview(&mut v, stdout.as_str());
            } else {
                push_str(&mut v, "E2E: exit code ");
                push_debug_code(&mut v, *code);
                push_str(&mut v, ", stderr: ");
                push_preview(&mut v, stderr.as_str());
            }
            string_of(&v)
        },
    }
}

fn bool_str(b: bool) -> (r: &'static str)
    ensures
        r@ == bool_text(b),
{
    if b { "true" } else { "false" }
}

fn make_item(name: &str, passed: bool, detail: String) -> (r: EnvCheckItem)
    ensures
        item_view(r) == (name@, passed, detail@),
{
    EnvCheckItem { name: owned(name), passed, detail }
}

/// The end-to-end test passed: the worker ran, succeeded, and printed both
/// `"type"` and `"result"`.
pub open spec fn e2e_passed(e: E2eRun) -> bool {
    e matches E2eRun::Finished { success, stdout, .. } && success && contains_seq(stdout@, "\"type\""@)
        && contains_seq(stdout@, "\"result\""@)
}

/// Each line of the environment check passes exactly when what it checks was
/// found: the worker file, the resource directory, the models directory, an
/// FFmpeg and a Python that ran successfully, and a passing end-to-end test;
/// and each line names what it checks.
pub proof fn lemma_env_lines_follow_the_probe(p: EnvProbe)
    ensures
        env_items(p).len() == 6,
        env_items(p)[0].0 == "asr_worker.exe"@ && env_items(p)[0].1 == p.worker_exists && env_items(p)[0].2 == p.worker_path@,
        env_items(p)[1].0 == "Resource directory"@ && env_items(p)[1].1 == p.resource_exists
            && env_items(p)[1].2 == p.resource_dir@,
        env_items(p)[2].0 == "ASR models"@ && env_items(p)[2].1 == p.models_exist,
        !p.models_exist ==> env_items(p)[2].2 == p.models_dir@,
        env_items(p)[3].0 == "FFmpeg"@ && env_items(p)[3].1 == (p.ffmpeg matches Some(t) && t.success),
        env_items(p)[4].0 == "Python (dev)"@ && env_items(p)[4].1 == (p.python matches Some(t) && t.success),
        env_items(p)[5].0 == "E2E transcription test"@ && env_items(p)[5].1 == e2e_passed(p.e2e),
{
    reveal_strlit("E2E transcription: PASS");
    reveal_strlit("SKIP (missing dependencies)");
    reveal_strlit("E2E: spawn failed: ");
    reveal_strlit("E2E: no result JSON. stdout: ");
    reveal_strlit("E2E: exit code ");
    let v = e2e_verdict(p.e2e);
    match p.e2e {
        E2eRun::Skipped => {
            assert(v.len() != pass_text().len());
        },
        E2eRun::SpawnFailed(m) => {
            assert(v[3] == ':');
            assert(pass_text()[3] == ' ');
        },
        E2eRun::Finished { success, code, stdout, stderr } => {
            if success {
                if !(contains_seq(stdout@, "\"type\""@) && contains_seq(stdout@, "\"result\""@)) {
                    assert(v[3] == ':');
                    assert(pass_text()[3] == ' ');
                }
            } else {
                assert(v[3] == ':');
                assert(pass_text()[3] == ' ');
            }
        },
    }
}

/// Every line passed.
pub open spec fn all_passed(items: Seq<EnvCheckItem>) -> bool {
    forall|k: int| 0 <= k < items.len() ==> (#[trigger] items[k]).passed
}

/// Builds the environment check from what was found out: its lines
/// (`env_items`), and `ok` when every line passed.
pub fn environment_report(p: &EnvProbe) -> (r: EnvCheck)
    ensures
        r.items@.map_values(|i: EnvCheckItem| item_view(i)) == env_items(*p),
        r.ok == all_passed(r.items@),
        r.items@.len() == 6,
        r.items@[0].passed == p.worker_exists,
        r.items@[1].passed == p.resource_exists,
        r.items@[2].passed == p.models_exist,
        r.items@[3].passed == (p.ffmpeg matches Some(t) && t.success),
        r.items@[4].passed == (p.python matches Some(t) && t.success),
        r.items@[5].passed == e2e_passed(p.e2e),
{
    let mut items: Vec<EnvCheckItem> = Vec::new();
    items.push(make_item("asr_worker.exe", p.worker_exists, owned(p.worker_path.as_str())));
    items.push(make_item("Resource directory", p.resource_exists, owned(p.resource_dir.as_str())));
    let models_detail = if p.models_exist {
        let mut v: Vec<char> = Vec::new();
        push_str(&mut v, "paraformer: ");
        push_str(&mut v, bool_str(p.paraformer_exists));
        push_str(&mut v, ", sensevoice: ");
        push_str(&mut v, bool_str(p.sensevoice_exists));
        string_of(&v)
    } else {
        owned(p.models_dir.as_str())
    };
    items.push(make_item("ASR models", p.models_exist, models_detail));
    let (ff_passed, ff_detail) = match &p.ffmpeg {
        Some(t) => {
            let ls = lines_of(&chars_of(t.stdout.as_str()));
            if ls.len() > 0 {
                assert(views(ls@)[0] == ls@[0]@);
                (t.success, string_of(&ls[0]))
            } else {
                (t.success, owned("not found"))
            }
        },
        None => (false, owned("not found")),
    };
    items.push(make_item("FFmpeg", ff_passed, ff_detail));
    let (py_passed, py_detail) = match &p.python {
        Some(t) => (t.success, string_of(&trim_chars(&chars_of(t.stdout.as_str())))),
        None => (false, owned("not found")),
    };
    items.push(make_item("Python (dev)", py_passed, py_detail));
    let verdict = e2e_verdict_exec(&p.e2e);
    let verdict_chars = chars_of(verdict.as_str());
    let passed = crate::text::chars_eq(&verdict_chars, &chars_of("E2E transcription: PASS"));
    items.push(make_item("E2E transcription test", passed, verdict));
    assert(items@.map_values(|i: EnvCheckItem| item_view(i)) =~= env_items(*p));
    let mut ok = true;
    let mut k: usize = 0;
    while k < items.len()
        invariant
            k <= items.len(),
            ok == (forall|j: int| 0 <= j < k ==> (#[trigger] items@[j]).passed),
        decreases items.len() - k,
    {
        ok = ok && items[k].passed;
        k = k + 1;
    }
    assert(ok == all_passed(items@));
    proof {
        lemma_env_lines_follow_the_probe(*p);
        let iv = items@.map_values(|i: EnvCheckItem| item_view(i));
        assert forall|k: int| 0 <= k < 6 implies #[trigger] items@[k].passed == iv[k].1 by {}
    }
    EnvCheck { ok, items }
}


/// Little-endian bytes of the low 16 bits.
pub open spec fn le16(v: nat) -> Seq<u8> {
    seq![(v % 256) as u8, ((v / 256) % 256) as u8]
}

/// Little-endian bytes of the low 32 bits.
pub open spec fn le32(v: nat) -> Seq<u8> {
    seq![(v % 256) as u8, ((v / 256) % 256) as u8, ((v / 65536) % 256) as u8, ((v / 16777216) % 256) as u8]
}

/// The 44-byte header of a mono 16-bit PCM WAV file holding `n` samples at
/// `sr` samples per second (RIFF sizes cut to 32 bits).
pub open spec fn wav_header(n: nat, sr: nat) -> Seq<u8> {
    seq![0x52u8, 0x49, 0x46, 0x46] + le32(36 + 2 * n) + seq![0x57u8, 0x41, 0x56, 0x45] + seq![0x66u8, 0x6d, 0x74, 0x20]
        + le32(16) + le16(1) + le16(1) + le32(sr) + le32(2 * sr) + le16(2) + le16(16) + seq![0x64u8, 0x61, 0x74, 0x61]
        + le32(2 * n)
}

fn push_le16(out: &mut Vec<u8>, v: u64)
    ensures
        final(out)@ == old(out)@ + le16(v as nat),
{
    out.push((v % 256) as u8);
    out.push(((v / 256) % 256) as u8);
    assert(final(out)@ =~= old(out)@ + le16(v as nat));
}

fn push_le32(out: &mut Vec<u8>, v: u64)
    ensures
        final(out)@ == old(out)@ + le32(v as nat),
{
    out.push((v % 256) as u8);
    out.push(((v / 256) % 256) as u8);
    out.push(((v / 65536) % 256) as u8);
    out.push(((v / 16777216) % 256) as u8);
    assert(final(out)@ =~= old(out)@ + le32(v as nat));
}

fn push_bytes4(out: &mut Vec<u8>, a: u8, b: u8, c: u8, d: u8)
    ensures
        final(out)@ == old(out)@ + seq![a, b, c, d],
{
    out.push(a);
    out.push(b);
    out.push(c);
    out.push(d);
    assert(final(out)@ =~= old(out)@ + seq![a, b, c, d]);
}

/// The header of the short test recording used by the end-to-end check
/// (`wav_header`); the samples follow it.
pub fn test_wav_header(num_samples: usize, sample_rate: u32) -> (r: Vec<u8>)
    requires
        36 + 2 * num_samples <= usize::MAX,
        2 * sample_rate <= u32::MAX,
    ensures
        r@ == wav_header(num_samples as nat, sample_rate as nat),
{
    let mut out: Vec<u8> = Vec::new();
    push_bytes4(&mut out, 0x52, 0x49, 0x46, 0x46);
    push_le32(&mut out, (36 + num_samples * 2) as u64);
    push_bytes4(&mut out, 0x57, 0x41, 0x56, 0x45);
    push_bytes4(&mut out, 0x66, 0x6d, 0x74, 0x20);
    push_le32(&mut out, 16);
    push_le16(&mut out, 1);
    push_le16(&mut out, 1);
    push_le32(&mut out, sample_rate as u64);
    push_le32(&mut out, (sample_rate * 2) as u64);
    push_le16(&mut out, 2);
    push_le16(&mut out, 16);
    push_bytes4(&mut out, 0x64, 0x61, 0x74, 0x61);
    push_le32(&mut out, (num_samples * 2) as u64);
    assert(out@ =~= wav_header(num_samples as nat, sample_rate as nat));
    out
}

} // verus!
