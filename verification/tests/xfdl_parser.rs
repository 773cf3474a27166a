use xfdl_analyzer::parser::typedef_parser::parse_typedef_xml;
use xfdl_analyzer::parser::xfdl_parser::{
    extract_action_calls, extract_combo_calls, extract_dsaction_urls, parse_xfdl_content,
};

const SCREEN: &str = r#"<?xml version="1.0" encoding="utf-8"?>
<FDL version="2.1">
  <Form id="CMCS0246">
    <Objects>
      <Dataset id="dsAction">
        <ColumnInfo>
          <Column id="ID" type="STRING" size="256"/>
          <Column id="URL" type="STRING" size="256"/>
        </ColumnInfo>
        <Rows>
          <Row>
            <Col id="ID">selectList</Col>
            <Col id="URL">/cmcs/0246/selectList</Col>
          </Row>
          <Row>
            <Col id="ID">save</Col>
            <Col id="URL">/member/save.do</Col>
          </Row>
        </Rows>
      </Dataset>
    </Objects>
    <Script type="xscript5.1"><![CDATA[
this.fn_search = function() {
    this.actionSubmit("selectList", "a", "b");
    this.actionSubmitFR('save');
    this.actionSubmit(sActionId);
    this.actionSubmit("selectList");
    this.getComCodeCombo(this.cboA, "CM001|ALL");
    this.getGridCodeCombo([ [this.grd, "LONG_QUERY_ID"], [this.grd2, 'X002'] ]);
    this.getComCodeComboSync(this.cboB, " |x");
};
]]></Script>
  </Form>
</FDL>
"#;

#[test]
fn action_calls_once_per_id() {
    let calls = extract_action_calls(SCREEN).unwrap();
    assert_eq!(
        calls,
        vec![
            ("selectList".to_string(), true),
            ("save".to_string(), true),
            ("sActionId".to_string(), false),
        ]
    );
}

#[test]
fn dataset_rows_map_ids_to_urls() {
    let (map, err) = extract_dsaction_urls(SCREEN);
    assert!(err.is_none());
    assert_eq!(map.get(&"selectList".to_string()).as_deref(), Some("/cmcs/0246/selectList"));
    assert_eq!(map.get(&"save".to_string()).as_deref(), Some("/member/save.do"));
    assert_eq!(map.get(&"other".to_string()), None);
}

#[test]
fn screen_actions_with_urls() {
    let (actions, err) = parse_xfdl_content(SCREEN, "/ui/CMCS0246.xfdl", "CMCS0246").unwrap();
    assert!(err.is_none());
    assert_eq!(actions.len(), 3);
    assert_eq!(actions[0].result_id, "CMCS0246.selectList");
    assert_eq!(actions[0].url.as_deref(), Some("/cmcs/0246/selectList"));
    assert!(!actions[0].is_manual);
    assert_eq!(actions[1].result_id, "CMCS0246.save");
    assert_eq!(actions[2].result_id, "CMCS0246.??sActionId");
    assert_eq!(actions[2].url, None);
    assert!(actions[2].is_manual);
    assert_eq!(actions[2].xfdl_path, "/ui/CMCS0246.xfdl");
}

#[test]
fn combo_parameters_numbered_in_order() {
    let combos = extract_combo_calls(SCREEN, "/ui/CMCS0246.xfdl", "CMCS0246").unwrap();
    assert_eq!(combos.len(), 3);
    assert_eq!(combos[0].result_id, "CMCS0246.combo_1_CM001");
    assert_eq!(combos[0].param, "CM001");
    assert!(combos[0].is_common_code);
    assert_eq!(combos[1].result_id, "CMCS0246.combo_2_LONG_QUERY_ID");
    assert!(!combos[1].is_common_code);
    assert_eq!(combos[2].param, "X002");
    assert!(combos[2].is_common_code);
}

#[test]
fn common_code_is_at_most_nine_characters() {
    let script = "<![CDATA[ getComCodeCombo(a, \"ABCDEFGHI\"); getComCodeCombo(b, \"ABCDEFGHIJ\"); getComCodeCombo(c, \"가나다라마바사아자\"); ]]>";
    let combos = extract_combo_calls(script, "p", "N").unwrap();
    assert_eq!(combos.len(), 3);
    assert!(combos[0].is_common_code);
    assert!(!combos[1].is_common_code);
    assert!(combos[2].is_common_code);
    assert_eq!(combos[2].result_id, "N.combo_3_가나다라마바사아자");
}

#[test]
fn combo_safe_parameter_in_id() {
    let script = "<![CDATA[ getGridCodeComboSync(g, 'A-B.C|x') ]]>";
    let combos = extract_combo_calls(script, "p", "N").unwrap();
    assert_eq!(combos.len(), 1);
    assert_eq!(combos[0].param, "A-B.C");
    assert_eq!(combos[0].result_id, "N.combo_1_A_B_C");
}

#[test]
fn broken_dataset_keeps_rows_read_before_the_error() {
    let text = "<Dataset id=\"dsAction\"><Rows><Row><Col id=\"ID\">a</Col><Col id=\"URL\">/u</Col></Row>\n<Row></Col></Rows>";
    let (map, err) = extract_dsaction_urls(text);
    assert_eq!(map.get(&"a".to_string()).as_deref(), Some("/u"));
    let e = err.unwrap();
    assert!(e.starts_with("XML 파싱 오류 (라인 2 부근, 위치 "), "{}", e);
}

#[test]
fn typedef_services() {
    let xml = r#"<TypeDefinition><Services>
  <Service prefixid="cmcs" type="JSP" url="./cm/cmc/cmcs" version="0"/>
  <Service prefixid="ext" url="http://example.com/x"/>
  <Service prefixid="svc" url="././sv/a"/>
</Services></TypeDefinition>"#;
    let map = parse_typedef_xml(xml).unwrap();
    assert_eq!(map.get(&"cmcs".to_string()).as_deref(), Some("cm/cmc/cmcs"));
    assert_eq!(map.get(&"ext".to_string()), None);
    assert_eq!(map.get(&"svc".to_string()).as_deref(), Some("sv/a"));
}

#[test]
fn typedef_xml_error() {
    let r = parse_typedef_xml("<Services><Service prefixid=\"a\" url=\"./b\"></Services>");
    let e = r.err().unwrap();
    assert!(e.starts_with("XML 파싱 오류: "), "{}", e);
}
