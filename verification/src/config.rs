//! The settings a run starts from: wanted openings, preferred environments,
//! limits, the OCR model files and the format of the settings file.

use vstd::prelude::*;
use crate::text::{strs, str_eq};
use crate::keys::{lowercase, to_lower};
use crate::selection::{OpeningConfig, copy_strings};

verus! {

/// One wanted opening as the settings file lists it.
#[derive(Debug, Clone)]
pub struct OpeningConfigEntry {
    pub env: Vec<String>,
    pub strategy: Vec<String>,
    pub affix: Vec<String>,
}

impl OpeningConfigEntry {
    /// The opening this entry asks for.
    pub fn to_opening(&self) -> (r: OpeningConfig)
        ensures
            r@.env == strs(self.env@),
            r@.strategy == strs(self.strategy@),
            r@.affix == strs(self.affix@),
    {
        OpeningConfig::new(
            copy_strings(self.env.as_slice()),
            copy_strings(self.strategy.as_slice()),
            copy_strings(self.affix.as_slice()),
        )
    }
}

/// The openings that the entries ask for, in order.
pub fn openings_from_entries(entries: &Vec<OpeningConfigEntry>) -> (r: Vec<OpeningConfig>)
    ensures
        r@.len() == entries@.len(),
        forall|i: int|
            0 <= i < entries@.len() ==> (#[trigger] r@[i])@.env == strs(entries@[i].env@) && r@[i]@.strategy == strs(
                entries@[i].strategy@,
            ) && r@[i]@.affix == strs(entries@[i].affix@),
{
    let mut r: Vec<OpeningConfig> = Vec::new();
    let mut i: usize = 0;
    while i < entries.len()
        invariant
            i <= entries@.len(),
            r@.len() == i,
            forall|k: int|
                0 <= k < i ==> (#[trigger] r@[k])@.env == strs(entries@[k].env@) && r@[k]@.strategy == strs(
                    entries@[k].strategy@,
                ) && r@[k]@.affix == strs(entries@[k].affix@),
        decreases entries@.len() - i,
    {
        r.push(entries[i].to_opening());
        i = i + 1;
    }
    r
}

/// Where the OCR models lie and what their files are called.
#[derive(Debug, Clone)]
pub struct OcrConfig {
    pub models_dir: String,
    pub det_model: String,
    pub rec_model: String,
    pub keys_file: String,
}

pub fn default_models_dir() -> (r: String)
    ensures
        r@ == "./models"@,
{
    String::from_str("./models")
}

pub fn default_det_model() -> (r: String)
    ensures
        r@ == "PP-OCRv5_mobile_det.mnn"@,
{
    String::from_str("PP-OCRv5_mobile_det.mnn")
}

pub fn default_rec_model() -> (r: String)
    ensures
        r@ == "PP-OCRv5_mobile_rec.mnn"@,
{
    String::from_str("PP-OCRv5_mobile_rec.mnn")
}

pub fn default_keys_file() -> (r: String)
    ensures
        r@ == "ppocr_keys_v5.txt"@,
{
    String::from_str("ppocr_keys_v5.txt")
}

impl Default for OcrConfig {
    fn default() -> (r: Self)
        ensures
            r.models_dir@ == "./models"@,
            r.det_model@ == "PP-OCRv5_mobile_det.mnn"@,
            r.rec_model@ == "PP-OCRv5_mobile_rec.mnn"@,
            r.keys_file@ == "ppocr_keys_v5.txt"@,
    {
        OcrConfig {
            models_dir: default_models_dir(),
            det_model: default_det_model(),
            rec_model: default_rec_model(),
            keys_file: default_keys_file(),
        }
    }
}

/// The names of the detection model, the recognition model and the key
/// file: those of the settings when given, else those of the older models.
pub fn ocr_model_files(config: Option<&OcrConfig>) -> (r: (String, String, String))
    ensures
        config matches Some(c) ==> r.0@ == c.det_model@ && r.1@ == c.rec_model@ && r.2@ == c.keys_file@,
        config is None ==> r.0@ == "ch_PP-OCRv4_det_infer.mnn"@ && r.1@ == "ch_PP-OCRv4_rec_infer.mnn"@ && r.2@
            == "ppocr_keys_v4.txt"@,
{
    match config {
        Some(c) => (c.det_model.clone(), c.rec_model.clone(), c.keys_file.clone()),
        None => (
            String::from_str("ch_PP-OCRv4_det_infer.mnn"),
            String::from_str("ch_PP-OCRv4_rec_infer.mnn"),
            String::from_str("ppocr_keys_v4.txt"),
        ),
    }
}

pub fn default_max_retry() -> (r: i32)
    ensures
        r == 500,
{
    500
}

/// The environments preferred when no wanted one is on offer.
pub open spec fn default_prefer_env_spec() -> Seq<Seq<char>> {
    seq!["彩虹时代"@, "头彩"@, "蓝海"@, "特权阶级"@, "银河学者邀请"@, "佩佩"@, "夜之半神邀请"@]
}

pub fn default_prefer_env() -> (r: Vec<String>)
    ensures
        strs(r@) == default_prefer_env_spec(),
{
    let mut r: Vec<String> = Vec::new();
    r.push(String::from_str("彩虹时代"));
    r.push(String::from_str("头彩"));
    r.push(String::from_str("蓝海"));
    r.push(String::from_str("特权阶级"));
    r.push(String::from_str("银河学者邀请"));
    r.push(String::from_str("佩佩"));
    r.push(String::from_str("夜之半神邀请"));
    assert(strs(r@) =~= default_prefer_env_spec());
    r
}

pub fn default_page_timeout() -> (r: i32)
    ensures
        r == 10,
{
    10
}

/// The formats a settings file can have.
#[derive(Debug, Clone, Copy, PartialEq, Eq)]
pub enum ConfigFormat {
    Json,
    Yaml,
}

/// The format that a file extension stands for, compared without regard
/// to case: "json", or "yaml" and "yml"; any other is not supported.
pub open spec fn format_of(extension: Seq<char>) -> Option<ConfigFormat> {
    format_of_lowered_spec(lowercase(extension))
}

pub fn config_format(extension: &str) -> (r: Option<ConfigFormat>)
    ensures
        r == format_of(extension@),
{
    let e = to_lower(extension);
    format_of_lowered(e.as_str())
}

/// The format that an extension already in lower case stands for.
pub open spec fn format_of_lowered_spec(e: Seq<char>) -> Option<ConfigFormat> {
    if e == "json"@ {
        Some(ConfigFormat::Json)
    } else if e == "yaml"@ || e == "yml"@ {
        Some(ConfigFormat::Yaml)
    } else {
        None
    }
}

pub fn format_of_lowered(e: &str) -> (r: Option<ConfigFormat>)
    ensures
        r == format_of_lowered_spec(e@),
{
    if str_eq(e, "json") {
        Some(ConfigFormat::Json)
    } else if str_eq(e, "yaml") || str_eq(e, "yml") {
        Some(ConfigFormat::Yaml)
    } else {
        None
    }
}

} // verus!
