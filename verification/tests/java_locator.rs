use xfdl_analyzer::parser::java_locator::{
    camel_segment_to_pascal_class_stem, debug_location, extract_url_path_preserve_case,
    find_public_or_protected_method_line, is_system_prefixed_service_url, java_service_target,
    names_match_ignoring_case, system_common_target, JavaServiceLocation,
};
use xfdl_analyzer::strmap::StrMap;

#[test]
fn system_prefixed_detection() {
    assert!(is_system_prefixed_service_url("/system/a/b"));
    assert!(is_system_prefixed_service_url("https://ex.com/SYSTEM/foo/bar"));
    assert!(!is_system_prefixed_service_url("/cmcs/0246/m"));
}

#[test]
fn camel_segment_to_pascal_first_only() {
    assert_eq!(camel_segment_to_pascal_class_stem("commonApproval"), "CommonApproval");
}

#[test]
fn pascal_of_empty_and_upper() {
    assert_eq!(camel_segment_to_pascal_class_stem(""), "");
    assert_eq!(camel_segment_to_pascal_class_stem("X"), "X");
    assert_eq!(camel_segment_to_pascal_class_stem("éclair"), "éclair");
}

#[test]
fn url_path_keeps_case() {
    assert_eq!(extract_url_path_preserve_case("  https://h.com/A/B?x=1 ").as_deref(), Some("/A/B"));
    assert_eq!(extract_url_path_preserve_case("a/B").as_deref(), Some("/a/B"));
    assert_eq!(extract_url_path_preserve_case("http://host"), None);
    assert_eq!(extract_url_path_preserve_case(""), None);
    assert_eq!(extract_url_path_preserve_case("?only"), None);
}

fn typedef() -> StrMap {
    let mut m = StrMap::new();
    m.insert("cmcs".to_string(), "cm/cmc/cmcs".to_string());
    m
}

#[test]
fn service_target_from_typedef() {
    let t = java_service_target("/cmcs/0246/selectApprovalParam", &typedef()).unwrap();
    assert_eq!(t.url_path, "cm/cmc/cmcs");
    assert_eq!(t.expected_filename, "CMCS0246Service.java");
    assert_eq!(t.method_name, "selectApprovalParam");
}

#[test]
fn service_target_errors() {
    match java_service_target("/cmcs/0246", &typedef()) {
        Err(e) => assert_eq!(e, "URL 세그먼트 부족 (최소 3개 필요): /cmcs/0246"),
        Ok(_) => panic!("expected an error"),
    }
    match java_service_target("/zzzz/1/m", &typedef()) {
        Err(e) => assert_eq!(e, "prefixid 'zzzz' 를 default_typedef.xml에서 찾을 수 없음"),
        Ok(_) => panic!("expected an error"),
    }
}

#[test]
fn system_target_names_the_service_file() {
    let (method, file) = system_common_target("/system/commonApproval/x/approve").unwrap();
    assert_eq!(file, "CommonApprovalService.java");
    assert_eq!(method, "approve");
    let (_, file2) = system_common_target("/SYSTEM/mailService/send").unwrap();
    assert_eq!(file2, "MailService.java");
}

#[test]
fn system_target_errors() {
    assert_eq!(system_common_target("").unwrap_err(), "URL에서 경로를 추출할 수 없음");
    assert_eq!(system_common_target("/cmcs/a/b").unwrap_err(), "URL이 /system/ 으로 시작하지 않음");
    assert_eq!(
        system_common_target("/system/onlyone").unwrap_err(),
        "/system/ 이후 세그먼트가 2개 미만입니다: onlyone"
    );
}

#[test]
fn method_line_is_found() {
    let src = "class A {\n  private void run() {}\n  protected void run() {}\n  public void go() {}\n}\n";
    assert_eq!(find_public_or_protected_method_line(src, "run"), Ok(3));
    assert_eq!(find_public_or_protected_method_line(src, "go"), Ok(4));
    assert_eq!(
        find_public_or_protected_method_line(src, "stop"),
        Err("메서드 'stop'를 파일에서 찾을 수 없음".to_string())
    );
}

#[test]
fn file_names_compare_without_case() {
    assert!(names_match_ignoring_case("CMCS0246Service.java", "cmcs0246service.JAVA"));
    assert!(!names_match_ignoring_case("A.java", "B.java"));
}

#[test]
fn strmap_read_after_write() {
    let mut m = StrMap::new();
    m.insert("k".to_string(), "1".to_string());
    m.insert("j".to_string(), "2".to_string());
    m.insert("k".to_string(), "3".to_string());
    assert_eq!(m.get(&"k".to_string()).as_deref(), Some("3"));
    assert_eq!(m.get(&"j".to_string()).as_deref(), Some("2"));
    assert_eq!(m.get(&"x".to_string()), None);
}

#[test]
fn location_text_matches_derived_debug() {
    for (file, method, line) in [
        ("/p/src/java/A.java", "run", 3u32),
        ("C:\\src\\B \"q\".java", "tab\there", 0u32),
        ("/경로/서비스.java", "조회", 4294967295u32),
    ] {
        let loc = JavaServiceLocation { java_file: file.to_string(), method_name: method.to_string(), method_line: line };
        assert_eq!(debug_location(&loc), format!("{:?}", loc));
    }
    let loc = JavaServiceLocation { java_file: "a\"b".to_string(), method_name: "m".to_string(), method_line: 12 };
    assert_eq!(
        debug_location(&loc),
        "JavaServiceLocation { java_file: \"a\\\"b\", method_name: \"m\", method_line: 12 }"
    );
}
