use xfdl_analyzer::commands::analyze::{
    after_system_locate, after_typedef_locate, analyze_single_combo, begin_action,
    finish_action, needs_diablo_retry, normalize_diablo_root, service_url_with_diablo_prefix,
    with_diablo_url, xfdl_error_action, ActionBegin, ExploreRequest, Exploration,
};
use xfdl_analyzer::models::{AnalysisStatus, AnalysisType, ExtractedAction, ExtractedCombo};
use xfdl_analyzer::parser::class_analyzer::{ClassAnalysisResult, FoundQuery, MethodCall};
use xfdl_analyzer::parser::java_locator::JavaServiceLocation;
use xfdl_analyzer::parser::spring_controller_index::{
    build_spring_mapping_index_from_sources, SpringMappingIndex,
};

fn action(url: Option<&str>, manual: bool, err: Option<&str>) -> ExtractedAction {
    ExtractedAction {
        result_id: "S.a".to_string(),
        action_id: "a".to_string(),
        xfdl_path: "/ui/S.xfdl".to_string(),
        xfdl_name: "S".to_string(),
        url: url.map(|s| s.to_string()),
        is_manual: manual,
        xml_parse_err: err.map(|s| s.to_string()),
    }
}

fn loc(file: &str, method: &str, line: u32) -> JavaServiceLocation {
    JavaServiceLocation { java_file: file.to_string(), method_name: method.to_string(), method_line: line }
}

#[test]
fn diablo_prefix() {
    assert_eq!(service_url_with_diablo_prefix(Some(" /a/b ".to_string())).as_deref(), Some("Diablo/a/b"));
    assert_eq!(service_url_with_diablo_prefix(Some("Diablo/x".to_string())).as_deref(), Some("Diablo/x"));
    assert_eq!(service_url_with_diablo_prefix(Some("//x".to_string())).as_deref(), Some("Diablo/x"));
    assert_eq!(service_url_with_diablo_prefix(None), None);
    assert_eq!(normalize_diablo_root(Some("  /d  ".to_string())).as_deref(), Some("/d"));
    assert_eq!(normalize_diablo_root(Some("   ".to_string())), None);
    assert_eq!(normalize_diablo_root(None), None);
}

#[test]
fn combo_rows() {
    let common = ExtractedCombo {
        result_id: "S.combo_1_CM001".to_string(),
        xfdl_path: "/ui/S.xfdl".to_string(),
        xfdl_name: "S".to_string(),
        param: "CM001".to_string(),
        is_common_code: true,
    };
    let r = analyze_single_combo(&common);
    assert_eq!(r.action_id, "combo");
    assert_eq!(r.status, AnalysisStatus::Found);
    assert_eq!(r.analysis_type, AnalysisType::Combo);
    assert_eq!(r.combo_param.as_deref(), Some("CM001"));
    assert_eq!(r.is_common_code, Some(true));
    assert!(r.queries.is_empty());
    let query = ExtractedCombo { param: "LONG_QUERY_ID".to_string(), is_common_code: false, ..common };
    let r2 = analyze_single_combo(&query);
    assert_eq!(r2.combo_param, None);
    assert_eq!(r2.is_common_code, Some(false));
    assert_eq!(r2.queries.len(), 1);
    assert!(r2.queries[0].call_path.is_empty());
    assert_eq!(r2.queries[0].query_id, "LONG_QUERY_ID");
}

#[test]
fn manual_and_missing_url_rows() {
    let empty = SpringMappingIndex::empty();
    match begin_action(&action(Some("/u"), true, Some("bad xml")), &empty, false) {
        ActionBegin::Done(r) => {
            assert_eq!(r.status, AnalysisStatus::ManualCheck);
            assert_eq!(r.service_url.as_deref(), Some("/u"));
            assert_eq!(r.error_msg.as_deref(), Some("actionSubmit 첫 번째 인자가 변수입니다. 수동 확인이 필요합니다."));
            assert_eq!(r.debug_logs, vec!["⚠️ [경고] XFDL 부분 파싱 중 오류 발생 (이휴 과정 진행됨):\nbad xml".to_string()]);
        }
        _ => panic!("expected a row"),
    }
    match begin_action(&action(None, false, None), &empty, false) {
        ActionBegin::Done(r) => {
            assert_eq!(r.status, AnalysisStatus::NotFound);
            assert_eq!(r.service_url, None);
            assert_eq!(r.error_msg.as_deref(), Some("dsAction Dataset에서 URL을 찾지 못했습니다."));
            assert!(r.debug_logs.is_empty());
        }
        _ => panic!("expected a row"),
    }
}

const CONTROLLER: &str = "@Controller\npublic class M {\n    @RequestMapping(\"/m/save.do\")\n    public void save() {}\n}\n";

#[test]
fn spring_urls() {
    let index = build_spring_mapping_index_from_sources(&vec![("/p/M.java".to_string(), CONTROLLER.to_string())]);
    match begin_action(&action(Some("/m/save.do"), false, None), &index, false) {
        ActionBegin::Located { url, logs, location } => {
            assert_eq!(url, "/m/save.do");
            assert_eq!(logs, vec!["URL: /m/save.do".to_string()]);
            assert_eq!(location.java_file, "/p/M.java");
            assert_eq!(location.method_name, "save");
        }
        _ => panic!("expected a location"),
    }
    match begin_action(&action(Some("/m/other.do"), false, None), &index, false) {
        ActionBegin::Done(r) => {
            assert_eq!(r.status, AnalysisStatus::ManualCheck);
            assert_eq!(
                r.error_msg.as_deref(),
                Some("@Controller/@RestController의 @RequestMapping 등에서 해당 URL 문자열을 찾지 못했습니다.")
            );
            assert_eq!(r.debug_logs.len(), 2);
        }
        _ => panic!("expected a row"),
    }
    let two = build_spring_mapping_index_from_sources(&vec![
        ("/p/A.java".to_string(), CONTROLLER.to_string()),
        ("/p/B.java".to_string(), CONTROLLER.to_string()),
    ]);
    match begin_action(&action(Some("/m/save.do"), false, None), &two, false) {
        ActionBegin::Done(r) => {
            let cands = vec![loc("/p/A.java", "save", 4), loc("/p/B.java", "save", 4)];
            assert_eq!(
                r.error_msg.unwrap(),
                format!("동일 URL에 매핑된 핸들러가 여러 개입니다: {:?}", cands)
            );
            assert_eq!(r.debug_logs[1], format!("Spring: 동일 URL에 복수 핸들러 후보 — {:?}", cands));
        }
        _ => panic!("expected a row"),
    }
}

#[test]
fn other_urls_are_located_by_the_caller() {
    let empty = SpringMappingIndex::empty();
    match begin_action(&action(Some("/system/common/get"), false, None), &empty, true) {
        ActionBegin::Locate { system, .. } => assert!(system),
        _ => panic!("expected a search"),
    }
    match begin_action(&action(Some("/system/common/get"), false, None), &empty, false) {
        ActionBegin::Locate { system, .. } => assert!(!system),
        _ => panic!("expected a search"),
    }
    match begin_action(&action(Some("/cmcs/0246/get"), false, None), &empty, true) {
        ActionBegin::Locate { system, url, .. } => {
            assert!(!system);
            assert_eq!(url, "/cmcs/0246/get");
        }
        _ => panic!("expected a search"),
    }
}

#[test]
fn after_the_searches() {
    let l = loc("/p/CommonService.java", "get", 7);
    match after_system_locate("/system/common/get".to_string(), vec![], Ok(l.clone())) {
        ActionBegin::Located { logs, .. } => assert_eq!(logs, vec![format!("common/service 휴리스틱: {:?}", l)]),
        _ => panic!("expected a location"),
    }
    match after_system_locate("/system/common/get".to_string(), vec![], Err("none".to_string())) {
        ActionBegin::Locate { system, logs, .. } => {
            assert!(!system);
            assert_eq!(logs, vec!["common/service 휴리스틱 실패, typedef 경로 시도: none".to_string()]);
        }
        _ => panic!("expected a search"),
    }
    let a = action(Some("/zz/1/m"), false, None);
    match after_typedef_locate(&a, "/zz/1/m".to_string(), vec![], Err("prefixid 'zz' 를 default_typedef.xml에서 찾을 수 없음".to_string())) {
        ActionBegin::Done(r) => assert_eq!(r.status, AnalysisStatus::ManualCheck),
        _ => panic!("expected a row"),
    }
    match after_typedef_locate(&a, "/zz/1/m".to_string(), vec![], Err("Java 서비스 파일을 찾을 수 없음: X".to_string())) {
        ActionBegin::Done(r) => {
            assert_eq!(r.status, AnalysisStatus::Error);
            assert_eq!(r.error_msg.as_deref(), Some("Java 서비스 파일을 찾을 수 없음: X"));
        }
        _ => panic!("expected a row"),
    }
}

fn analysis(refs: &[(&str, &str)], queries: &[(&str, &str, &str)]) -> ClassAnalysisResult {
    ClassAnalysisResult {
        class_file: "/c/A.class".to_string(),
        references: refs
            .iter()
            .map(|(c, m)| MethodCall { class_name: c.to_string(), method_name: m.to_string() })
            .collect(),
        queries: queries
            .iter()
            .map(|(d, m, q)| FoundQuery { dao_class: d.to_string(), call_method: m.to_string(), query_id: q.to_string() })
            .collect(),
        logs: vec!["analyzed".to_string()],
    }
}

#[test]
fn exploration_follows_calls_once() {
    let l = loc("/p/src/java/com/shi/a/AService.java", "run", 3);
    let mut ex = Exploration::start(&l);
    match ex.request() {
        ExploreRequest::AnalyzeClass { java_file, method_name } => {
            assert_eq!(java_file, "/p/src/java/com/shi/a/AService.java");
            assert_eq!(method_name, "run");
        }
        _ => panic!("expected an analysis"),
    }
    ex.class_analyzed(
        Ok(analysis(
            &[("java.lang.String", "trim"), ("com.shi.b.BService", "go"), ("com.shi.b.BService", "go2")],
            &[("com.shi.a.ADao", "select", "a.q")],
        )),
    );
    match ex.request() {
        ExploreRequest::FindJavaSource(rel) => assert_eq!(rel, "com/shi/b/BService.java"),
        _ => panic!("expected a source search"),
    }
    ex.source_found(Some("/p/src/java/com/shi/b/BService.java".to_string()));
    match ex.request() {
        ExploreRequest::AnalyzeClass { method_name, .. } => assert_eq!(method_name, "go"),
        _ => panic!("expected an analysis"),
    }
    ex.class_analyzed(
        Ok(analysis(&[("com.shi.a.AService", "run")], &[("com.shi.b.BDao", "insert", "b.q")])),
    );
    // AService#run was visited first: found again, it is not analyzed again.
    assert!(matches!(ex.request(), ExploreRequest::FindJavaSource(_)));
    ex.source_found(Some("/p/src/java/com/shi/a/AService.java".to_string()));
    match ex.request() {
        ExploreRequest::FindJavaSource(rel) => assert_eq!(rel, "com/shi/b/BService.java"),
        _ => panic!("expected a source search"),
    }
    ex.source_found(None);
    assert!(ex.is_finished());
    assert!(matches!(ex.request(), ExploreRequest::Finished));
    let r = finish_action(&action(Some("/cmcs/1/run"), false, None), "/cmcs/1/run".to_string(), vec!["URL: /cmcs/1/run".to_string()], l.clone(), ex);
    assert_eq!(r.status, AnalysisStatus::Found);
    assert_eq!(r.class_file.as_deref(), Some("/c/A.class"));
    assert_eq!(r.java_file.as_deref(), Some("/p/src/java/com/shi/a/AService.java"));
    assert_eq!(r.method_line, Some(3));
    assert_eq!(r.queries.len(), 2);
    assert_eq!(r.queries[0].call_path, vec!["AService.run".to_string(), "ADao.select".to_string()]);
    assert_eq!(r.queries[0].query_id, "a.q");
    assert_eq!(
        r.queries[1].call_path,
        vec!["AService.run".to_string(), "BService.go".to_string(), "BDao.insert".to_string()]
    );
    assert_eq!(r.debug_logs[0], "URL: /cmcs/1/run");
    assert_eq!(r.debug_logs[1], format!("Java Locator: {:?}", l));
    assert_eq!(&r.debug_logs[2..], &["analyzed".to_string(), "analyzed".to_string()]);
}

#[test]
fn exploration_failures_are_logged() {
    let l = loc("/p/A.java", "run", 1);
    let mut ex = Exploration::start(&l);
    ex.class_analyzed(Err("no class".to_string()));
    assert!(ex.is_finished());
    let r = finish_action(&action(Some("/u"), false, None), "/u".to_string(), vec![], l.clone(), ex);
    assert_eq!(r.class_file, None);
    assert_eq!(r.debug_logs[1], "[ANALYZE] class 분석 실패: no class");

    let mut ex2 = Exploration::start(&l);
    ex2.class_analyzed(Ok(analysis(&[("com.shi.Z", "z")], &[])));
    ex2.source_found(Some("/p/Z.java".to_string()));
    ex2.class_analyzed(Err("broken".to_string()));
    assert!(ex2.is_finished());
    let r2 = finish_action(&action(Some("/u"), false, None), "/u".to_string(), vec![], l, ex2);
    assert_eq!(r2.debug_logs.last().unwrap(), "[ANALYZE] 내부 class 분석 실패(/p/Z.java): broken");
}

#[test]
fn diablo_retry_rules() {
    let a = action(Some("/cmcs/1/m"), false, None);
    let r = match after_typedef_locate(&a, "/cmcs/1/m".to_string(), vec![], Err("x".to_string())) {
        ActionBegin::Done(r) => r,
        _ => panic!("expected a row"),
    };
    assert!(needs_diablo_retry(&r, true));
    assert!(!needs_diablo_retry(&r, false));
    let same = with_diablo_url(r.clone());
    assert_eq!(same.service_url.as_deref(), Some("/cmcs/1/m"));
    let mut found = r;
    found.java_file = Some("/d/X.java".to_string());
    assert!(!needs_diablo_retry(&found, true));
    assert_eq!(with_diablo_url(found).service_url.as_deref(), Some("Diablo/cmcs/1/m"));
}

#[test]
fn unreadable_screen_row() {
    let a = xfdl_error_action("/ui/S.xfdl", "S", "파일 읽기 실패: gone");
    assert_eq!(a.result_id, "S.ERROR");
    assert_eq!(a.action_id, "ERROR");
    assert_eq!(a.url, None);
    assert!(!a.is_manual);
    assert_eq!(a.xml_parse_err.as_deref(), Some("파일 읽기 실패: gone"));
}

#[test]
fn diablo_prefix_applied_once() {
    for u in ["/a/b", "  x ", "Diablo/y", "///", ""] {
        let once = service_url_with_diablo_prefix(Some(u.to_string()));
        let twice = service_url_with_diablo_prefix(once.clone());
        assert_eq!(once, twice);
    }
}
