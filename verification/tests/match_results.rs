use xfdl_analyzer::parser::java_locator::JavaServiceLocation;
use xfdl_analyzer::parser::spring_controller_index::{
    annotation_paths_from_matches, collect_list_paths_from_matches,
    collect_literal_paths_from_matches, push_handler_entries,
};
use xfdl_analyzer::parser::typedef_parser::typedef_from_events;
use xfdl_analyzer::parser::xfdl_parser::{
    call_args_at, combos_from_params, dsaction_urls_from_events, first_action_calls,
    push_array_params_from_matches, push_calls_from_matches,
    push_second_arg_param_from_matches, scripts_from_matches,
};
use xfdl_analyzer::text::{lowercase_of, uppercase_of};
use xfdl_analyzer::xml::{XmlAttr, XmlEvent, XmlFailure, XmlTag};

type Spans = Vec<Vec<Option<(usize, usize)>>>;

fn cs(s: &str) -> Vec<char> {
    s.chars().collect()
}

fn text(v: &[char]) -> String {
    v.iter().collect()
}

fn texts(v: &[Vec<char>]) -> Vec<String> {
    v.iter().map(|x| text(x)).collect()
}

/// Character span of the first `part` in `hay` at or after `from`.
fn span(hay: &[char], part: &str, from: usize) -> (usize, usize) {
    let p = cs(part);
    let mut i = from;
    while i + p.len() <= hay.len() {
        if hay[i..i + p.len()] == p[..] {
            return (i, i + p.len());
        }
        i += 1;
    }
    panic!("{} not found", part);
}

fn tag(name: &str, attrs: &[(&str, &str)]) -> XmlTag {
    XmlTag {
        name: name.to_string(),
        attrs: attrs
            .iter()
            .map(|(k, v)| XmlAttr { key: k.as_bytes().to_vec(), value: v.to_string() })
            .collect(),
    }
}

#[test]
fn scripts_are_group_one_of_each_match() {
    let content = cs("<a><![CDATA[one]]><b/><![CDATA[two]]><![CDATA[]]></a>");
    let w1 = span(&content, "<![CDATA[one]]>", 0);
    let b1 = span(&content, "one", 0);
    let w2 = span(&content, "<![CDATA[two]]>", 0);
    let b2 = span(&content, "two", 0);
    let w3 = span(&content, "<![CDATA[]]>", w2.1);
    let ms: Spans = vec![
        vec![Some(w1), Some(b1)],
        vec![Some(w2), Some(b2)],
        vec![Some(w3), None],
    ];
    let r = scripts_from_matches(&content, &ms);
    assert_eq!(texts(&r), vec!["one".to_string(), "two".to_string()]);
}

#[test]
fn calls_from_matches_literal_or_variable() {
    let script = cs(r#"actionSubmit("a"); actionSubmitFR('b'); actionSubmit(sId);"#);
    let m1 = vec![
        Some(span(&script, r#"actionSubmit("a""#, 0)),
        Some(span(&script, r#""a""#, 0)),
        Some(span(&script, "a", 14)),
        None,
        None,
    ];
    let m2 = vec![
        Some(span(&script, "actionSubmitFR('b'", 0)),
        Some(span(&script, "'b'", 0)),
        None,
        Some(span(&script, "b", 35)),
        None,
    ];
    let m3 = vec![
        Some(span(&script, "actionSubmit(sId", 0)),
        Some(span(&script, "sId", 0)),
        None,
        None,
        Some(span(&script, "sId", 0)),
    ];
    let ms: Spans = vec![m1, m2, m3];
    let mut out: Vec<(Vec<char>, bool)> = vec![(cs("pre"), true)];
    push_calls_from_matches(&script, &ms, &mut out);
    let got: Vec<(String, bool)> = out.iter().map(|(t, b)| (text(t), *b)).collect();
    assert_eq!(
        got,
        vec![
            ("pre".to_string(), true),
            ("a".to_string(), true),
            ("b".to_string(), true),
            ("sId".to_string(), false),
        ]
    );
}

#[test]
fn first_call_of_each_id_is_kept() {
    let cands = vec![
        (cs("a"), true),
        (cs("b"), false),
        (cs("a"), false),
        (cs("c"), true),
        (cs("b"), true),
    ];
    assert_eq!(
        first_action_calls(&cands),
        vec![("a".to_string(), true), ("b".to_string(), false), ("c".to_string(), true)]
    );
    assert!(first_action_calls(&Vec::new()).is_empty());
}

#[test]
fn combo_rows_from_raw_parameters() {
    let raw = vec![cs("CM001|ALL"), cs(" |x"), cs("LONG_QUERY_ID"), cs("  A-B  "), cs("")];
    let rows = combos_from_params(&raw, "/ui/S.xfdl", "S");
    assert_eq!(rows.len(), 3);
    assert_eq!(rows[0].result_id, "S.combo_1_CM001");
    assert_eq!(rows[0].param, "CM001");
    assert_eq!(rows[0].xfdl_path, "/ui/S.xfdl");
    assert_eq!(rows[0].xfdl_name, "S");
    assert!(rows[0].is_common_code);
    assert_eq!(rows[1].result_id, "S.combo_2_LONG_QUERY_ID");
    assert!(!rows[1].is_common_code);
    assert_eq!(rows[2].result_id, "S.combo_3_A_B");
    assert_eq!(rows[2].param, "A-B");
}

#[test]
fn array_and_second_argument_parameters_from_matches() {
    let args = cs(r#"[ [this.grd, "Q1"], [g2, 'X2'] ]"#);
    let m1 = vec![
        Some(span(&args, r#"[this.grd, "Q1"]"#, 0)),
        Some(span(&args, r#""Q1""#, 0)),
        Some(span(&args, "Q1", 0)),
        None,
    ];
    let m2 = vec![
        Some(span(&args, "[g2, 'X2']", 0)),
        Some(span(&args, "'X2'", 0)),
        None,
        Some(span(&args, "X2", 0)),
    ];
    let mut out: Vec<Vec<char>> = Vec::new();
    push_array_params_from_matches(&args, &vec![m1, m2], &mut out);
    assert_eq!(texts(&out), vec!["Q1".to_string(), "X2".to_string()]);

    let args2 = cs(r#"this.cbo, "CM001|ALL", 'other'"#);
    let n1 = vec![
        Some(span(&args2, r#", "CM001|ALL""#, 0)),
        Some(span(&args2, r#""CM001|ALL""#, 0)),
        Some(span(&args2, "CM001|ALL", 0)),
        None,
    ];
    let n2 = vec![
        Some(span(&args2, ", 'other'", 0)),
        Some(span(&args2, "'other'", 0)),
        None,
        Some(span(&args2, "other", 0)),
    ];
    let mut out2: Vec<Vec<char>> = vec![cs("x")];
    push_second_arg_param_from_matches(&args2, &vec![n1, n2], &mut out2);
    assert_eq!(texts(&out2), vec!["x".to_string(), "CM001|ALL".to_string()]);
    let mut out3: Vec<Vec<char>> = Vec::new();
    push_second_arg_param_from_matches(&args2, &Vec::new(), &mut out3);
    assert!(out3.is_empty());
}

#[test]
fn typedef_map_from_events() {
    let events = vec![
        XmlEvent::Start(tag("TypeDefinition", &[])),
        XmlEvent::Empty(tag("Service", &[("prefixid", "cm"), ("url", "./cm/old")])),
        XmlEvent::Empty(tag("Service", &[("prefixid", "ab"), ("url", "/abs/path")])),
        XmlEvent::Other,
        XmlEvent::Start(tag("Service", &[("url", "././cm/new"), ("prefixid", "cm")])),
        XmlEvent::Empty(tag("Other", &[("prefixid", "zz"), ("url", "./zz")])),
        XmlEvent::End("TypeDefinition".to_string()),
    ];
    let map = typedef_from_events(&events, &None).unwrap();
    assert_eq!(map.get(&"cm".to_string()).as_deref(), Some("cm/new"));
    assert_eq!(map.get(&"ab".to_string()), None);
    assert_eq!(map.get(&"zz".to_string()), None);
    let failure = Some(XmlFailure { byte_pos: 3, message: "bad tag".to_string() });
    match typedef_from_events(&events, &failure) {
        Err(e) => assert_eq!(e, "XML 파싱 오류: bad tag"),
        Ok(_) => panic!("a reader error gives an error"),
    }
}

#[test]
fn dsaction_rows_from_events() {
    let content = "<a>\n<b>\n</c>";
    let row = |id: &str, url: &str| {
        vec![
            XmlEvent::Start(tag("Row", &[])),
            XmlEvent::Start(tag("Col", &[("id", "ID")])),
            XmlEvent::Text(id.to_string()),
            XmlEvent::End("Col".to_string()),
            XmlEvent::Start(tag("Col", &[("id", "URL")])),
            XmlEvent::Text(url.to_string()),
            XmlEvent::End("Col".to_string()),
            XmlEvent::End("Row".to_string()),
        ]
    };
    let mut events = vec![XmlEvent::Start(tag("Dataset", &[("id", "dsAction")]))];
    events.extend(row("search", "/a/search"));
    events.extend(row("save", "/a/save.do"));
    events.extend(row("search", "/a/search2"));
    events.push(XmlEvent::End("Dataset".to_string()));
    events.push(XmlEvent::Start(tag("Dataset", &[("id", "dsOther")])));
    events.extend(row("other", "/x"));
    events.push(XmlEvent::End("Dataset".to_string()));
    let (map, err) = dsaction_urls_from_events(content, &events, &None);
    assert!(err.is_none());
    assert_eq!(map.get(&"search".to_string()).as_deref(), Some("/a/search2"));
    assert_eq!(map.get(&"save".to_string()).as_deref(), Some("/a/save.do"));
    assert_eq!(map.get(&"other".to_string()), None);
    let failure = Some(XmlFailure { byte_pos: 9, message: "mismatch".to_string() });
    let (map2, err2) = dsaction_urls_from_events(content, &events, &failure);
    assert_eq!(map2.get(&"save".to_string()).as_deref(), Some("/a/save.do"));
    assert_eq!(err2.as_deref(), Some("XML 파싱 오류 (라인 3 부근, 위치 9): mismatch"));
}

#[test]
fn literal_paths_from_matches_are_unescaped_and_filtered() {
    let hay = cs(r#"value = "/a\/b", "plain", "x.DO""#);
    let m1 = vec![Some(span(&hay, r#""/a\/b""#, 0)), Some(span(&hay, r#"/a\/b"#, 0))];
    let m2 = vec![Some(span(&hay, r#""plain""#, 0)), Some(span(&hay, "plain", 0))];
    let m3 = vec![Some(span(&hay, r#""x.DO""#, 0)), Some(span(&hay, "x.DO", 0))];
    let mut out: Vec<Vec<char>> = vec![cs("/first")];
    collect_literal_paths_from_matches(&hay, &vec![m1, m2, m3], &mut out);
    assert_eq!(texts(&out), vec!["/first".to_string(), "/a/b".to_string(), "x.DO".to_string()]);
}

#[test]
fn list_paths_from_matches() {
    let hay = cs(r#"path = {"/one", "two", "/three"}"#);
    let m = vec![
        Some(span(&hay, r#"path = {"/one", "two", "/three"}"#, 0)),
        Some(span(&hay, r#""/one", "two", "/three""#, 0)),
    ];
    let mut out: Vec<Vec<char>> = Vec::new();
    collect_list_paths_from_matches(&hay, &vec![m], &mut out);
    assert_eq!(texts(&out), vec!["/one".to_string(), "/three".to_string()]);
}

#[test]
fn annotation_paths_from_given_matches() {
    let block = cs(r#"@GetMapping("/b") @RequestMapping(value = "/a", method = GET)"#);
    let m1 = vec![Some(span(&block, "@GetMapping(", 0)), Some(span(&block, "GetMapping", 0))];
    let m2 = vec![
        Some(span(&block, "@RequestMapping(", 0)),
        Some(span(&block, "RequestMapping", 0)),
    ];
    let r = annotation_paths_from_matches(&block, &vec![m1.clone(), m2]);
    assert_eq!(texts(&r), vec!["/a".to_string(), "/b".to_string()]);
    let only_first = annotation_paths_from_matches(&block, &vec![m1]);
    assert_eq!(texts(&only_first), vec!["/b".to_string()]);
}

#[test]
fn handler_entries_combine_with_class_paths() {
    let mut out: Vec<(String, JavaServiceLocation)> = Vec::new();
    push_handler_entries(
        &vec![cs("/cm")],
        &vec![cs("/List"), cs("a")],
        &"C.java".to_string(),
        41,
        &cs("handle"),
        &mut out,
    );
    let keys: Vec<String> = out.iter().map(|e| e.0.clone()).collect();
    // paths are sorted before their keys are lowercased: "/List" < "/cm/List" < "/cm/a"
    assert_eq!(keys, vec!["/list".to_string(), "/cm/list".to_string(), "/cm/a".to_string()]);
    for e in &out {
        assert_eq!(e.1.java_file, "C.java");
        assert_eq!(e.1.method_name, "handle");
        assert_eq!(e.1.method_line, 42);
    }
    let mut none: Vec<(String, JavaServiceLocation)> = Vec::new();
    push_handler_entries(&Vec::new(), &vec![cs("rel")], &"C.java".to_string(), 0, &cs("m"), &mut none);
    assert_eq!(none.len(), 1);
    assert_eq!(none[0].0, "/rel");
}

#[test]
fn ascii_case_mapping() {
    assert_eq!(text(&lowercase_of(&cs("AbC-1/Z"))), "abc-1/z");
    assert_eq!(text(&uppercase_of(&cs("AbC-1/z"))), "ABC-1/Z");
    assert!(lowercase_of(&cs("")).is_empty());
}

#[test]
fn call_arguments_up_to_the_closing_parenthesis() {
    let script = cs(r#"f( a, (b), "x" ) rest)"#);
    let (args, end) = call_args_at(&script, 2);
    assert_eq!(text(&args), r#"a, (b), "x""#);
    assert_eq!(end, 15);
    assert_eq!(script[end], ')');
    let open = cs("g( a (");
    let (args2, end2) = call_args_at(&open, 2);
    assert_eq!(text(&args2), "a (");
    assert_eq!(end2, open.len());
}
