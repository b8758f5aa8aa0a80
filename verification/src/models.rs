//! The catalogue of neural source-separation models and lookup by name.
use vstd::prelude::*;
use crate::text::{lower_text, same_text, to_lowercase, trim, trim_str};

verus! {

/// What is known of a separation model. Scores and sizes are whole numbers:
/// the signal-to-distortion ratio in tenths of a decibel, the download size
/// in megabytes.
#[derive(Debug, Clone)]
pub struct ModelInfo {
    pub name: &'static str,
    pub display_name: &'static str,
    pub description: &'static str,
    pub stems: Vec<&'static str>,
    pub sdr_score_tenths_db: u32,
    pub download_url: &'static str,
    pub filename: &'static str,
    pub size_mb: u32,
}

/// The fields of a model entry as plain values.
pub open spec fn model_view(m: ModelInfo) -> (
    Seq<char>,
    Seq<char>,
    Seq<char>,
    Seq<Seq<char>>,
    int,
    Seq<char>,
    Seq<char>,
    int,
) {
    (
        m.name@,
        m.display_name@,
        m.description@,
        m.stems@.map_values(|s: &str| s@),
        m.sdr_score_tenths_db as int,
        m.download_url@,
        m.filename@,
        m.size_mb as int,
    )
}

/// Number of catalogued models.
pub open spec fn model_count() -> int {
    3
}

/// Catalogue entry `i`.
pub open spec fn known_model(i: int) -> (
    Seq<char>,
    Seq<char>,
    Seq<char>,
    Seq<Seq<char>>,
    int,
    Seq<char>,
    Seq<char>,
    int,
) {
    if i == 0 {
        (
            "htdemucs_6s"@,
            "HTDemucs v4 (6-Stems)"@,
            "Meta AI Hybrid Transformer Demucs with dedicated Guitar and Piano stems (SOTA for guitar)"@,
            seq!["drums"@, "bass"@, "other"@, "vocals"@, "guitar"@, "piano"@],
            92,
            "https://huggingface.co/StemSplitio/htdemucs-6s-onnx/resolve/main/htdemucs_6s.onnx"@,
            "htdemucs_6s.onnx"@,
            118,
        )
    } else if i == 1 {
        (
            "htdemucs_4s"@,
            "HTDemucs v4 (4-Stems)"@,
            "Meta AI Hybrid Transformer Demucs 4-stem model (Drums, Bass, Other, Vocals)"@,
            seq!["drums"@, "bass"@, "other"@, "vocals"@],
            88,
            "https://huggingface.co/StemSplitio/htdemucs-onnx/resolve/main/htdemucs.onnx"@,
            "htdemucs_4s.onnx"@,
            79,
        )
    } else {
        (
            "bs_roformer"@,
            "BS-Roformer (Vocal & Inst)"@,
            "Band-Split Roformer with Rotary Position Embeddings (Music Demixing Challenge Winner)"@,
            seq!["vocals"@, "other"@],
            96,
            "https://huggingface.co/ZFTurbo/BS-Roformer/resolve/main/bs_roformer.onnx"@,
            "bs_roformer.onnx"@,
            145,
        )
    }
}

/// A character with ASCII upper-case letters folded to lower case, as a code.
pub open spec fn ascii_fold(c: char) -> u32 {
    if 'A' <= c && c <= 'Z' {
        (c as u32 + 32) as u32
    } else {
        c as u32
    }
}

/// Equality of two strings up to ASCII case (as `str::eq_ignore_ascii_case`).
pub open spec fn eq_ignore_ascii_case(a: Seq<char>, b: Seq<char>) -> bool {
    a.len() == b.len() && forall|i: int| 0 <= i < a.len() ==> ascii_fold(#[trigger] a[i]) == ascii_fold(b[i])
}

/// Entry `i` answers to the (trimmed, lower-cased) query `q`: by its name
/// exactly, or by its file name up to ASCII case.
pub open spec fn answers(i: int, q: Seq<char>) -> bool {
    known_model(i).0 == q || eq_ignore_ascii_case(known_model(i).6, q)
}

/// The first entry from `i` on that answers to `q`, or `model_count()`.
pub open spec fn first_answer(q: Seq<char>, i: int) -> int
    decreases model_count() - i,
{
    if i >= model_count() {
        model_count()
    } else if answers(i, q) {
        i
    } else {
        first_answer(q, i + 1)
    }
}

fn eq_ignore_case(a: &str, b: &str) -> (r: bool)
    ensures
        r == eq_ignore_ascii_case(a@, b@),
{
    let n = a.unicode_len();
    if n != b.unicode_len() {
        return false;
    }
    let mut i: usize = 0;
    while i < n
        invariant
            n == a@.len(),
            n == b@.len(),
            i <= n,
            forall|j: int| 0 <= j < i ==> ascii_fold(#[trigger] a@[j]) == ascii_fold(b@[j]),
        decreases n - i,
    {
        let c = a.get_char(i);
        let d = b.get_char(i);
        let fc: u32 = if 'A' <= c && c <= 'Z' { c as u32 + 32 } else { c as u32 };
        let fd: u32 = if 'A' <= d && d <= 'Z' { d as u32 + 32 } else { d as u32 };
        if fc != fd {
            assert(ascii_fold(a@[i as int]) != ascii_fold(b@[i as int]));
            return false;
        }
        i = i + 1;
    }
    true
}

/// Discovery of separation models.
pub struct ModelManager;

impl ModelManager {
    /// Catalogue entry `i`.
    fn known(i: usize) -> (r: ModelInfo)
        requires
            i < 3,
        ensures
            model_view(r) == known_model(i as int),
    {
        let r = if i == 0 {
            ModelInfo {
                name: "htdemucs_6s",
                display_name: "HTDemucs v4 (6-Stems)",
                description: "Meta AI Hybrid Transformer Demucs with dedicated Guitar and Piano stems (SOTA for guitar)",
                stems: vec!["drums", "bass", "other", "vocals", "guitar", "piano"],
                sdr_score_tenths_db: 92,
                download_url: "https://huggingface.co/StemSplitio/htdemucs-6s-onnx/resolve/main/htdemucs_6s.onnx",
                filename: "htdemucs_6s.onnx",
                size_mb: 118,
            }
        } else if i == 1 {
            ModelInfo {
                name: "htdemucs_4s",
                display_name: "HTDemucs v4 (4-Stems)",
                description: "Meta AI Hybrid Transformer Demucs 4-stem model (Drums, Bass, Other, Vocals)",
                stems: vec!["drums", "bass", "other", "vocals"],
                sdr_score_tenths_db: 88,
                download_url: "https://huggingface.co/StemSplitio/htdemucs-onnx/resolve/main/htdemucs.onnx",
                filename: "htdemucs_4s.onnx",
                size_mb: 79,
            }
        } else {
            ModelInfo {
                name: "bs_roformer",
                display_name: "BS-Roformer (Vocal & Inst)",
                description: "Band-Split Roformer with Rotary Position Embeddings (Music Demixing Challenge Winner)",
                stems: vec!["vocals", "other"],
                sdr_score_tenths_db: 96,
                download_url: "https://huggingface.co/ZFTurbo/BS-Roformer/resolve/main/bs_roformer.onnx",
                filename: "bs_roformer.onnx",
                size_mb: 145,
            }
        };
        assert(model_view(r).3 =~= known_model(i as int).3);
        r
    }

    /// The catalogue, in its fixed order.
    pub fn known_models() -> (r: Vec<ModelInfo>)
        ensures
            r@.len() == model_count(),
            forall|i: int| 0 <= i < model_count() ==> #[trigger] model_view(r@[i]) == known_model(i),
    {
        let mut r: Vec<ModelInfo> = Vec::new();
        let mut i: usize = 0;
        while i < 3
            invariant
                i <= 3,
                r@.len() == i,
                forall|j: int| 0 <= j < i ==> #[trigger] model_view(r@[j]) == known_model(j),
            decreases 3 - i,
        {
            r.push(ModelManager::known(i));
            i = i + 1;
        }
        r
    }

    /// The first catalogue entry answering to an already trimmed and
    /// lower-cased query.
    pub fn find_normalized(query: &str) -> (r: Option<ModelInfo>)
        ensures
            r is Some <==> first_answer(query@, 0) < model_count(),
            r matches Some(m) ==> model_view(m) == known_model(first_answer(query@, 0)),
    {
        let mut i: usize = 0;
        while i < 3
            invariant
                i <= 3,
                first_answer(query@, 0) == first_answer(query@, i as int),
            decreases 3 - i,
        {
            let m = ModelManager::known(i);
            let by_name = same_text(m.name, query);
            let by_file = eq_ignore_case(m.filename, query);
            if by_name || by_file {
                return Some(m);
            }
            i = i + 1;
        }
        None
    }

    /// The catalogue entry a user names: the name is trimmed and
    /// lower-cased, then matched against model names and file names.
    pub fn find_model(name: &str) -> (r: Option<ModelInfo>)
        ensures
            ({
                let q = lower_text(trim(name@));
                &&& r is Some <==> first_answer(q, 0) < model_count()
                &&& r matches Some(m) ==> model_view(m) == known_model(first_answer(q, 0))
            }),
    {
        let clean = to_lowercase(trim_str(name));
        ModelManager::find_normalized(clean.as_str())
    }
}

} // verus!
