//! Records passed between the scanner, the analyzer and the exporter.
use vstd::prelude::*;

use crate::text::{opt_str, string_views};

verus! {

/// An XFDL file found under the UI folder.
#[derive(Debug, Clone)]
pub struct XfdlFile {
    pub path: String,
    /// The file name without its extension (e.g. "CMCS0246").
    pub name: String,
}

/// One `actionSubmit` call found in a screen script.
#[derive(Debug, Clone)]
pub struct ExtractedAction {
    /// e.g. "CMCS0246.selectGrdMainList"
    pub result_id: String,
    /// e.g. "selectGrdMainList"
    pub action_id: String,
    pub xfdl_path: String,
    pub xfdl_name: String,
    /// The URL that the `dsAction` dataset gives for the action.
    pub url: Option<String>,
    /// The first argument was a variable, so a person has to check it.
    pub is_manual: bool,
    /// The XML error met while reading the dataset, if any.
    pub xml_parse_err: Option<String>,
}

/// One parameter of a `getComCodeCombo` / `getGridCodeCombo` family call.
#[derive(Debug, Clone)]
pub struct ExtractedCombo {
    /// e.g. "CMCS0246.combo_1_CODE"
    pub result_id: String,
    pub xfdl_path: String,
    pub xfdl_name: String,
    /// The parameter up to its first `|`, trimmed.
    pub param: String,
    /// At most 9 characters: a common code; longer: a query.
    pub is_common_code: bool,
}

impl View for ExtractedAction {
    /// (result id, action id, file path, file name, URL, manual, XML error)
    type V = (Seq<char>, Seq<char>, Seq<char>, Seq<char>, Option<Seq<char>>, bool, Option<Seq<char>>);

    open spec fn view(&self) -> Self::V {
        (
            self.result_id@,
            self.action_id@,
            self.xfdl_path@,
            self.xfdl_name@,
            match self.url {
                Some(u) => Some(u@),
                None => None,
            },
            self.is_manual,
            match self.xml_parse_err {
                Some(e) => Some(e@),
                None => None,
            },
        )
    }
}

impl View for ExtractedCombo {
    /// (result id, file path, file name, parameter, common code)
    type V = (Seq<char>, Seq<char>, Seq<char>, Seq<char>, bool);

    open spec fn view(&self) -> Self::V {
        (self.result_id@, self.xfdl_path@, self.xfdl_name@, self.param@, self.is_common_code)
    }
}

/// Outcome of analyzing one row.
#[derive(Debug, Clone, Copy, PartialEq, Eq, Structural)]
pub enum AnalysisStatus {
    Found,
    NotFound,
    ManualCheck,
    Error,
}

/// A query reached from a screen action.
#[derive(Debug, Clone)]
pub struct QueryUsage {
    /// Call path, e.g. ["A.method", "B.method", "Dao.method"].
    pub call_path: Vec<String>,
    /// The first string argument of the DAO call (the query id).
    pub query_id: String,
}

/// Kind of a result row.
#[derive(Debug, Clone, Copy, PartialEq, Eq, Structural)]
pub enum AnalysisType {
    ActionSubmit,
    Combo,
}

/// One result row.
#[derive(Debug, Clone)]
pub struct AnalysisResult {
    pub result_id: String,
    pub action_id: String,
    pub xfdl_path: String,
    pub xfdl_name: String,
    pub service_url: Option<String>,
    pub status: AnalysisStatus,
    pub java_file: Option<String>,
    pub class_file: Option<String>,
    pub method_name: Option<String>,
    pub method_line: Option<u32>,
    pub queries: Vec<QueryUsage>,
    pub error_msg: Option<String>,
    pub debug_logs: Vec<String>,
    pub analysis_type: AnalysisType,
    /// The combo parameter shown for a common-code combo.
    pub combo_param: Option<String>,
    /// For combo rows: whether the combo uses a common code.
    pub is_common_code: Option<bool>,
}

impl View for QueryUsage {
    /// (call path, query id)
    type V = (Seq<Seq<char>>, Seq<char>);

    open spec fn view(&self) -> Self::V {
        (string_views(self.call_path@), self.query_id@)
    }
}

pub open spec fn usages_view(v: Seq<QueryUsage>) -> Seq<(Seq<Seq<char>>, Seq<char>)> {
    v.map_values(|q: QueryUsage| q@)
}

/// The content of a result row.
pub struct AnalysisView {
    pub result_id: Seq<char>,
    pub action_id: Seq<char>,
    pub xfdl_path: Seq<char>,
    pub xfdl_name: Seq<char>,
    pub service_url: Option<Seq<char>>,
    pub status: AnalysisStatus,
    pub java_file: Option<Seq<char>>,
    pub class_file: Option<Seq<char>>,
    pub method_name: Option<Seq<char>>,
    pub method_line: Option<u32>,
    pub queries: Seq<(Seq<Seq<char>>, Seq<char>)>,
    pub error_msg: Option<Seq<char>>,
    pub debug_logs: Seq<Seq<char>>,
    pub analysis_type: AnalysisType,
    pub combo_param: Option<Seq<char>>,
    pub is_common_code: Option<bool>,
}

impl View for AnalysisResult {
    type V = AnalysisView;

    open spec fn view(&self) -> AnalysisView {
        AnalysisView {
            result_id: self.result_id@,
            action_id: self.action_id@,
            xfdl_path: self.xfdl_path@,
            xfdl_name: self.xfdl_name@,
            service_url: opt_str(self.service_url),
            status: self.status,
            java_file: opt_str(self.java_file),
            class_file: opt_str(self.class_file),
            method_name: opt_str(self.method_name),
            method_line: self.method_line,
            queries: usages_view(self.queries@),
            error_msg: opt_str(self.error_msg),
            debug_logs: string_views(self.debug_logs@),
            analysis_type: self.analysis_type,
            combo_param: opt_str(self.combo_param),
            is_common_code: self.is_common_code,
        }
    }
}

/// Progress of a scan.
#[derive(Debug, Clone)]
pub struct ScanProgress {
    pub current: usize,
    pub total: usize,
    pub current_file: String,
}

/// Progress of an analysis.
#[derive(Debug, Clone)]
pub struct AnalyzeProgress {
    pub current: usize,
    pub total: usize,
    pub current_id: String,
    pub status: String,
}

/// The kind a stored result row has when it records none.
pub fn default_analysis_type() -> (r: AnalysisType)
    ensures
        r == AnalysisType::ActionSubmit,
{
    AnalysisType::ActionSubmit
}

} // verus!
