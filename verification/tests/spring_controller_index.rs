use xfdl_analyzer::parser::spring_controller_index::{
    build_spring_mapping_index, build_spring_mapping_index_from_sources, index_java_file,
    is_spring_do_style_url, normalize_url_key, try_build_spring_mapping_index, SpringLookupError,
    SpringMappingIndex,
};

#[test]
fn normalize_strips_query_and_host() {
    assert_eq!(
        normalize_url_key("https://x.com/App/foo.do?a=1").as_deref(),
        Some("/app/foo.do")
    );
    assert_eq!(normalize_url_key("/Bar.DOX").as_deref(), Some("/bar.dox"));
}

#[test]
fn is_do_style() {
    assert!(is_spring_do_style_url("/test.do"));
    assert!(is_spring_do_style_url("/test.dox"));

    assert!(is_spring_do_style_url("/test.DO"));
    assert!(is_spring_do_style_url("/test.Dox"));
    assert!(is_spring_do_style_url("/test.dOX"));

    assert!(is_spring_do_style_url("/test.do?id=123"));
    assert!(is_spring_do_style_url("/api/v1/save.dox?mode=all&debug=true"));

    assert!(is_spring_do_style_url("http://localhost:8080/app/main.do"));
    assert!(is_spring_do_style_url("https://example.com/login.dox?redirect=/"));

    assert!(is_spring_do_style_url("  /trimmed.do  "));

    assert!(!is_spring_do_style_url("/test.jsp"));
    assert!(!is_spring_do_style_url("/test.do.txt"));
    assert!(!is_spring_do_style_url("/do/something"));
    assert!(!is_spring_do_style_url("/"));
    assert!(!is_spring_do_style_url(""));
    assert!(!is_spring_do_style_url("https://example.com"));
}

#[test]
fn fqcn_restcontroller_requestmapping_indexes_dox_path() {
    let src = r#"package com.example;
@org.springframework.web.bind.annotation.RestController
public class EpLoginController {
    @org.springframework.web.bind.annotation.RequestMapping("/system/registePortalInfo.dox")
    public void registerPortal() {}
}
"#;
    let locs = index_java_file("EpLoginController.java", src);
    let keys: Vec<&str> = locs.iter().map(|(k, _)| k.as_str()).collect();
    assert!(
        keys.contains(&"/system/registeportalinfo.dox"),
        "expected key in {:?}",
        keys
    );
}

const CONTROLLER: &str = r#"package com.shi.web;
@Controller
@RequestMapping("/member")
public class MemberController {
    @PostMapping("/save.do")
    public String save() {
        return "ok";
    }

    @GetMapping(value = {"/list.do", "/all.do"})
    public String list() {
        return "ok";
    }
}
"#;

fn sources(list: &[(&str, &str)]) -> Vec<(String, String)> {
    list.iter().map(|(p, c)| (p.to_string(), c.to_string())).collect()
}

#[test]
fn class_and_method_paths_are_joined() {
    let entries = index_java_file("MemberController.java", CONTROLLER);
    let keys: Vec<&str> = entries.iter().map(|(k, _)| k.as_str()).collect();
    assert!(keys.contains(&"/member/save.do"));
    assert!(keys.contains(&"/member/list.do"));
    assert!(keys.contains(&"/member/all.do"));
    let save = entries.iter().find(|(k, _)| k == "/member/save.do").unwrap();
    assert_eq!(save.1.method_name, "save");
    assert_eq!(save.1.method_line, 6);
    assert_eq!(save.1.java_file, "MemberController.java");
}

#[test]
fn lookup_after_build_finds_the_handler() {
    let index = build_spring_mapping_index_from_sources(&sources(&[("/p/MemberController.java", CONTROLLER)]));
    let loc = index.lookup("https://host/Member/Save.do?x=1").unwrap();
    assert_eq!(loc.method_name, "save");
    assert_eq!(loc.java_file, "/p/MemberController.java");
    assert!(matches!(index.lookup("/member/none.do"), Err(SpringLookupError::NotFound)));
    assert!(matches!(index.lookup(""), Err(SpringLookupError::NotFound)));
}

#[test]
fn two_handlers_for_one_url_are_ambiguous() {
    let index = build_spring_mapping_index_from_sources(&sources(&[
        ("/p/A.java", CONTROLLER),
        ("/p/B.java", CONTROLLER),
    ]));
    match index.lookup("/member/save.do") {
        Err(SpringLookupError::Ambiguous(v)) => {
            assert_eq!(v.len(), 2);
            assert_eq!(v[0].java_file, "/p/A.java");
            assert_eq!(v[1].java_file, "/p/B.java");
        }
        _ => panic!("expected two candidates"),
    }
}

#[test]
fn sources_without_controller_are_skipped() {
    let plain = "public class Util {\n    @RequestMapping(\"/x.do\")\n    public void x() {}\n}\n";
    let index = build_spring_mapping_index_from_sources(&sources(&[("/p/Util.java", plain)]));
    assert!(matches!(index.lookup("/x.do"), Err(SpringLookupError::NotFound)));
}

#[test]
fn missing_source_folder() {
    match build_spring_mapping_index("/p/src/java", None) {
        Err(e) => assert_eq!(e, "Java 소스 경로가 없습니다: /p/src/java"),
        Ok(_) => panic!("expected an error"),
    }
    let empty = try_build_spring_mapping_index(None);
    assert!(matches!(empty.lookup("/member/save.do"), Err(SpringLookupError::NotFound)));
    let files = sources(&[("/p/MemberController.java", CONTROLLER)]);
    let built = try_build_spring_mapping_index(Some(&files));
    assert!(built.lookup("/member/list.do").is_ok());
    let e = SpringMappingIndex::empty();
    assert!(matches!(e.lookup("/a.do"), Err(SpringLookupError::NotFound)));
}

#[test]
fn normalize_edge_cases() {
    assert_eq!(normalize_url_key("   "), None);
    assert_eq!(normalize_url_key("https://host-only"), None);
    assert_eq!(normalize_url_key("App/Foo.do").as_deref(), Some("/app/foo.do"));
    assert_eq!(normalize_url_key("http://h/x.do?").as_deref(), Some("/x.do"));
}

use xfdl_analyzer::parser::spring_controller_index::{
    brace_delta_line, combine_class_and_method_paths, find_matching_paren_end,
    is_spring_path_literal, join_path_segments, mapping_path_to_key, unescape_java_string,
};

fn cv(s: &str) -> Vec<char> {
    s.chars().collect()
}

fn st(v: Vec<char>) -> String {
    v.into_iter().collect()
}

#[test]
fn braces_outside_literals_and_comments() {
    assert_eq!(brace_delta_line("class A {"), 1);
    assert_eq!(brace_delta_line("a { b { } c"), 1);
    assert_eq!(brace_delta_line("x = \"{\"; }"), -1);
    assert_eq!(brace_delta_line("/* { */ }"), -1);
    assert_eq!(brace_delta_line("} // {"), -1);
    assert_eq!(brace_delta_line("c = '}';"), 0);
    assert_eq!(brace_delta_line("s = \"\\\"{\"; {"), 1);
}

#[test]
fn matching_parenthesis() {
    assert_eq!(find_matching_paren_end(&cv("\"a)\", b)")), Some(7));
    assert_eq!(find_matching_paren_end(&cv("f(x) /* ) */ )")), Some(13));
    assert_eq!(find_matching_paren_end(&cv("x // )\n)")), Some(7));
    assert_eq!(find_matching_paren_end(&cv("(a")), None);
}

#[test]
fn java_string_escapes() {
    assert_eq!(st(unescape_java_string(&cv("a\\nb\\t\\\"c\\\\"))), "a\nb\t\"c\\");
    assert_eq!(st(unescape_java_string(&cv("end\\"))), "end");
}

#[test]
fn spring_path_literals() {
    assert!(is_spring_path_literal(&cv("/a")));
    assert!(is_spring_path_literal(&cv("x.DO")));
    assert!(is_spring_path_literal(&cv("${base}")));
    assert!(!is_spring_path_literal(&cv("name")));
    assert!(!is_spring_path_literal(&cv("")));
}

#[test]
fn path_joining_and_keys() {
    assert_eq!(st(join_path_segments(&cv(" /a/ "), &cv("/b.do"))), "/a/b.do");
    assert_eq!(st(join_path_segments(&cv(""), &cv("b.do"))), "/b.do");
    assert_eq!(st(join_path_segments(&cv("a"), &cv(""))), "/a");
    assert_eq!(st(mapping_path_to_key(&cv(" A/B.Do "))), "/a/b.do");
    assert_eq!(st(mapping_path_to_key(&cv("  "))), "");
    let joined = combine_class_and_method_paths(&vec![cv("/c1"), cv("/c2")], &vec![cv("/m.do")]);
    let keys: Vec<String> = joined.into_iter().map(st).collect();
    assert_eq!(keys, vec!["/c1/m.do".to_string(), "/c2/m.do".to_string(), "/m.do".to_string()]);
    let none_class = combine_class_and_method_paths(&vec![], &vec![cv("m.do")]);
    assert_eq!(none_class.into_iter().map(st).collect::<Vec<_>>(), vec!["/m.do".to_string()]);
}

#[test]
fn keys_have_one_leading_slash() {
    assert_eq!(normalize_url_key("//Foo.do").as_deref(), Some("/foo.do"));
    assert_eq!(normalize_url_key("https://h///A/b.do?x").as_deref(), Some("/a/b.do"));
    assert_eq!(normalize_url_key("/").as_deref(), Some("/"));
    assert_eq!(st(mapping_path_to_key(&cv(" //Foo.DO "))), "/foo.do");
    assert_eq!(st(mapping_path_to_key(&cv("/"))), "/");
    let src = "@Controller\npublic class C {\n    @RequestMapping(\"//Twice.do\")\n    public void twice() {}\n}\n";
    let index = build_spring_mapping_index_from_sources(&sources(&[("/p/C.java", src)]));
    assert_eq!(index.lookup("/twice.do").unwrap().method_name, "twice");
    assert_eq!(index.lookup("//TWICE.do").unwrap().method_name, "twice");
}

#[test]
fn normalized_keys_are_lower_case_and_stable() {
    for url in ["https://x.com/App/Foo.do?a=1", "  /Bar.DOX ", "//System/A/b", "relative/Path.do"] {
        let k = normalize_url_key(url).unwrap();
        assert_eq!(k, k.to_ascii_lowercase());
        assert_eq!(normalize_url_key(&k).as_deref(), Some(k.as_str()));
    }
    assert_eq!(st(mapping_path_to_key(&cv("   "))), "");
    assert_eq!(normalize_url_key("  "), None);
    // a path key and a lookup key agree on a blank-free, query-free path
    assert_eq!(st(mapping_path_to_key(&cv(" /A/B.do "))), normalize_url_key(" /A/B.do ").unwrap());
}
