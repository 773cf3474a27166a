use xfdl_analyzer::commands::export::{export_headers, export_lines, result_lines, service_url_prefix};
use xfdl_analyzer::commands::scan::is_xfdl_extension;
use xfdl_analyzer::models::{default_analysis_type, AnalysisResult, AnalysisStatus, AnalysisType, QueryUsage};

fn row() -> AnalysisResult {
    AnalysisResult {
        result_id: "S.a".to_string(),
        action_id: "a".to_string(),
        xfdl_path: "/ui/S.xfdl".to_string(),
        xfdl_name: "S".to_string(),
        service_url: Some("/cmcs/0246/select".to_string()),
        status: AnalysisStatus::Found,
        java_file: Some("/p/X.java".to_string()),
        class_file: None,
        method_name: Some("select".to_string()),
        method_line: Some(42),
        queries: vec![],
        error_msg: None,
        debug_logs: vec![],
        analysis_type: AnalysisType::ActionSubmit,
        combo_param: None,
        is_common_code: None,
    }
}

#[test]
fn url_prefix() {
    let u = "//cmcs/0246/x".to_string();
    assert_eq!(service_url_prefix(Some(&u)), "cmcs");
    let v = "plain".to_string();
    assert_eq!(service_url_prefix(Some(&v)), "plain");
    assert_eq!(service_url_prefix(None), "");
}

#[test]
fn headers() {
    let h = export_headers();
    assert_eq!(h.len(), 14);
    assert_eq!(h[0], "분석ID");
    assert_eq!(h[13], "오류 메시지");
}

#[test]
fn one_line_without_queries() {
    let lines = result_lines(&row());
    assert_eq!(
        lines,
        vec![vec![
            "S.a", "a", "actionSubmit", "S", "발견", "/cmcs/0246/select", "cmcs", "/p/X.java", "select", "42", "0", "", "", "",
        ]
        .into_iter()
        .map(|s| s.to_string())
        .collect::<Vec<String>>()]
    );
}

#[test]
fn one_line_per_query() {
    let mut r = row();
    r.queries = vec![
        QueryUsage { call_path: vec!["A.run".to_string(), "D.select".to_string()], query_id: "q1".to_string() },
        QueryUsage { call_path: vec![], query_id: "q2".to_string() },
    ];
    r.status = AnalysisStatus::ManualCheck;
    r.error_msg = Some("e".to_string());
    let lines = result_lines(&r);
    assert_eq!(lines.len(), 2);
    assert_eq!(lines[0][4], "수동확인");
    assert_eq!(lines[0][10], "2");
    assert_eq!(lines[0][11], "A.run -> D.select");
    assert_eq!(lines[0][12], "q1");
    assert_eq!(lines[0][13], "e");
    assert_eq!(lines[1][11], "");
    assert_eq!(lines[1][12], "q2");
}

#[test]
fn common_code_combo_line() {
    let mut r = row();
    r.analysis_type = AnalysisType::Combo;
    r.is_common_code = Some(true);
    r.combo_param = Some("CM001".to_string());
    r.service_url = None;
    r.method_line = None;
    r.status = AnalysisStatus::Error;
    let lines = result_lines(&r);
    assert_eq!(lines[0][2], "콤보");
    assert_eq!(lines[0][4], "오류");
    assert_eq!(lines[0][5], "");
    assert_eq!(lines[0][6], "");
    assert_eq!(lines[0][9], "");
    assert_eq!(lines[0][12], "CM001");
    r.status = AnalysisStatus::NotFound;
    assert_eq!(result_lines(&r)[0][4], "미발견");
}

#[test]
fn lines_of_all_results_in_order() {
    let mut b = row();
    b.result_id = "S.b".to_string();
    b.queries = vec![
        QueryUsage { call_path: vec![], query_id: "q1".to_string() },
        QueryUsage { call_path: vec![], query_id: "q2".to_string() },
    ];
    let lines = export_lines(&vec![row(), b]);
    assert_eq!(lines.len(), 3);
    assert_eq!(lines[0][0], "S.a");
    assert_eq!(lines[1][0], "S.b");
    assert_eq!(lines[2][12], "q2");
}

#[test]
fn xfdl_extension_any_case() {
    assert!(is_xfdl_extension("xfdl"));
    assert!(is_xfdl_extension("XFDL"));
    assert!(!is_xfdl_extension("xml"));
}

#[test]
fn default_kind_is_action() {
    assert_eq!(default_analysis_type(), AnalysisType::ActionSubmit);
}
