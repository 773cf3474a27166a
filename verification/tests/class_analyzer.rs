use xfdl_analyzer::parser::class_analyzer::{
    analyze_class, analyze_class_with_extra, class_stem, extract_relative_path,
    is_framework_dao_class, is_service_callback_class, select_class_files, ClassFileInput,
    SimpleValueTracker,
};

/// A class file written by hand: class `com/shi/x/FooService` (extends
/// Object) with `public static void run()` whose code is
/// `ldc "q.select"; invokestatic com/x/FooDao.select(String); return`.
fn class_bytes(method: &str) -> Vec<u8> {
    fn utf8(out: &mut Vec<u8>, s: &str) {
        out.push(1);
        out.extend_from_slice(&(s.len() as u16).to_be_bytes());
        out.extend_from_slice(s.as_bytes());
    }
    let mut b: Vec<u8> = vec![0xCA, 0xFE, 0xBA, 0xBE, 0, 0, 0, 52];
    b.extend_from_slice(&16u16.to_be_bytes());
    utf8(&mut b, "com/shi/x/FooService"); // 1
    b.extend_from_slice(&[7, 0, 1]); // 2 class
    utf8(&mut b, "java/lang/Object"); // 3
    b.extend_from_slice(&[7, 0, 3]); // 4 class
    utf8(&mut b, method); // 5
    utf8(&mut b, "()V"); // 6
    utf8(&mut b, "Code"); // 7
    utf8(&mut b, "com/x/FooDao"); // 8
    b.extend_from_slice(&[7, 0, 8]); // 9 class
    utf8(&mut b, "select"); // 10
    utf8(&mut b, "(Ljava/lang/String;)V"); // 11
    b.extend_from_slice(&[12, 0, 10, 0, 11]); // 12 name and type
    b.extend_from_slice(&[10, 0, 9, 0, 12]); // 13 method ref
    utf8(&mut b, "q.select"); // 14
    b.extend_from_slice(&[8, 0, 14]); // 15 string
    b.extend_from_slice(&[0, 0x21, 0, 2, 0, 4, 0, 0, 0, 0]); // flags, this, super, no interfaces, no fields
    b.extend_from_slice(&[0, 1, 0, 9, 0, 5, 0, 6, 0, 1]); // one method: public static, name, descriptor, one attribute
    b.extend_from_slice(&[0, 7, 0, 0, 0, 18, 0, 2, 0, 1, 0, 0, 0, 6]); // Code, length 18, max stack, max locals, code length
    b.extend_from_slice(&[0x12, 15, 0xB8, 0, 13, 0xB1]); // ldc #15, invokestatic #13, return
    b.extend_from_slice(&[0, 0, 0, 0]); // no exceptions, no attributes
    b.extend_from_slice(&[0, 0]); // no class attributes
    b
}

fn input(path: &str, name: &str, bytes: Result<Vec<u8>, String>) -> ClassFileInput {
    ClassFileInput { path: path.to_string(), file_name: Some(name.to_string()), bytes }
}

const JAVA: &str = "/proj/src/java/com/shi/x/FooService.java";

#[test]
fn relative_path_after_marker() {
    assert_eq!(
        extract_relative_path("C:\\proj\\SRC\\Java\\com\\a\\B.java", "src/java/").as_deref(),
        Some("com/a/B.java")
    );
    assert_eq!(extract_relative_path("/x/y/B.java", "src/java/"), None);
}

#[test]
fn class_stem_of_java_source() {
    assert_eq!(class_stem(JAVA).as_deref(), Ok("com/shi/x/FooService"));
    assert_eq!(
        class_stem("/x/B.java").unwrap_err(),
        "Java 파일 경로에서 'src/java/' 를 찾을 수 없음: /x/B.java"
    );
}

#[test]
fn dao_and_callback_classes() {
    assert!(is_framework_dao_class("com/shi/framework/service/FrameworkDao"));
    assert!(is_framework_dao_class("com.shi.framework.service.ProxyDao"));
    assert!(!is_framework_dao_class("com.shi.framework.service.OtherDao"));
    assert!(is_service_callback_class("com/shi/framework/service/ServiceCallback"));
    assert!(!is_service_callback_class("com.shi.framework.service.Callback"));
}

#[test]
fn tracker_keeps_the_newest_candidate() {
    let mut t = SimpleValueTracker::new();
    assert_eq!(t.pop_for_call(), None);
    t.push_literal("a".to_string());
    t.push_field("com/x/Q", "ID");
    t.push_unknown();
    assert_eq!(t.pop_for_call().as_deref(), Some("[변수 확인 필요]"));
    assert_eq!(t.pop_for_call().as_deref(), Some("[com.x.Q.ID]"));
    t.clear();
    assert_eq!(t.pop_for_call(), None);
}

#[test]
fn class_files_own_file_first() {
    let found = vec![
        ("/c/com/shi/x/FooService$1.class".to_string(), "com/shi/x/FooService$1".to_string()),
        ("/c/com/shi/x/FooServiceImpl.class".to_string(), "com/shi/x/FooServiceImpl".to_string()),
        ("/c/com/shi/x/FooService.class".to_string(), "com/shi/x/FooService".to_string()),
        ("/c/com/shi/x/fooservice$2.class".to_string(), "com\\shi\\x\\fooservice$2".to_string()),
    ];
    let picked = select_class_files("com/shi/x/FooService", &found);
    assert_eq!(
        picked,
        vec![
            "/c/com/shi/x/FooService.class".to_string(),
            "/c/com/shi/x/FooService$1.class".to_string(),
            "/c/com/shi/x/fooservice$2.class".to_string(),
        ]
    );
}

#[test]
fn analysis_of_a_class_file() {
    let files = vec![input("/c/FooService.class", "FooService.class", Ok(class_bytes("run")))];
    let r = analyze_class(JAVA, "run", &files).unwrap();
    assert_eq!(r.class_file, "/c/FooService.class");
    assert_eq!(r.references.len(), 1);
    assert_eq!(r.references[0].class_name, "com.x.FooDao");
    assert_eq!(r.references[0].method_name, "select");
    assert_eq!(r.queries.len(), 1);
    assert_eq!(r.queries[0].dao_class, "com.x.FooDao");
    assert_eq!(r.queries[0].call_method, "select");
    assert_eq!(r.queries[0].query_id, "q.select");
    assert_eq!(
        r.logs,
        vec![
            format!("[ANALYZER] Java  파일: {JAVA}"),
            "[ANALYZER] Class 파일 목록 (1 개):".to_string(),
            "  - /c/FooService.class".to_string(),
            "[ANALYZER] 메서드 분석: run (in FooService.class)".to_string(),
            "[ANALYZER]   → QUERY 발견: com.x.FooDao.select(q.select)".to_string(),
            "[ANALYZER] 메서드 'run' 참조 총 1건, 쿼리 1건".to_string(),
        ]
    );
}

#[test]
fn other_methods_are_not_analyzed() {
    let files = vec![input("/c/FooService.class", "FooService.class", Ok(class_bytes("run")))];
    let r = analyze_class(JAVA, "other", &files).unwrap();
    assert!(r.references.is_empty());
    assert!(r.queries.is_empty());
    assert_eq!(r.logs.last().unwrap(), "[ANALYZER] 메서드 'other' 참조 총 0건, 쿼리 0건");
}

#[test]
fn doit_in_anonymous_class_and_extra_methods() {
    let files = vec![
        input("/c/FooService.class", "FooService.class", Ok(class_bytes("run"))),
        input("/c/FooService$1.class", "FooService$1.class", Ok(class_bytes("doit"))),
    ];
    let r = analyze_class(JAVA, "run", &files).unwrap();
    assert_eq!(r.queries.len(), 2);
    assert_eq!(r.references.len(), 1);
    let extra = vec!["doit".to_string()];
    let files2 = vec![input("/c/FooService.class", "FooService.class", Ok(class_bytes("doit")))];
    let r2 = analyze_class_with_extra(JAVA, "run", &extra, &files2).unwrap();
    assert_eq!(r2.queries.len(), 1);
}

#[test]
fn analysis_errors() {
    let none: Vec<ClassFileInput> = Vec::new();
    assert_eq!(
        analyze_class(JAVA, "run", &none).unwrap_err(),
        ".class 파일을 찾을 수 없음: target/classes/com/shi/x/FooService*.class"
    );
    assert_eq!(
        analyze_class("/elsewhere/A.java", "run", &none).unwrap_err(),
        "Java 파일 경로에서 'src/java/' 를 찾을 수 없음: /elsewhere/A.java"
    );
    let unreadable = vec![input("/c/A.class", "A.class", Err("denied".to_string()))];
    assert_eq!(
        analyze_class(JAVA, "run", &unreadable).unwrap_err(),
        ".class 파일 읽기 실패 (/c/A.class): denied"
    );
    let garbage = vec![input("/c/A.class", "A.class", Ok(vec![1, 2, 3]))];
    let e = analyze_class(JAVA, "run", &garbage).unwrap_err();
    assert!(e.starts_with(".class 파싱 실패 (/c/A.class): "), "{}", e);
}

/// A constant pool under construction.
struct Pool {
    bytes: Vec<u8>,
    count: u16,
}

impl Pool {
    fn new() -> Pool {
        Pool { bytes: Vec::new(), count: 1 }
    }
    fn add(&mut self, entry: Vec<u8>) -> u16 {
        self.bytes.extend(entry);
        self.count += 1;
        self.count - 1
    }
    fn utf8(&mut self, s: &str) -> u16 {
        let mut e = vec![1];
        e.extend_from_slice(&(s.len() as u16).to_be_bytes());
        e.extend_from_slice(s.as_bytes());
        self.add(e)
    }
    fn class(&mut self, name: &str) -> u16 {
        let n = self.utf8(name);
        self.add(vec![7, (n >> 8) as u8, n as u8])
    }
    fn member(&mut self, tag: u8, class: &str, name: &str, desc: &str) -> u16 {
        let c = self.class(class);
        let n = self.utf8(name);
        let d = self.utf8(desc);
        let nt = self.add(vec![12, (n >> 8) as u8, n as u8, (d >> 8) as u8, d as u8]);
        self.add(vec![tag, (c >> 8) as u8, c as u8, (nt >> 8) as u8, nt as u8])
    }
    fn method(&mut self, class: &str, name: &str, desc: &str) -> u16 {
        self.member(10, class, name, desc)
    }
    fn field(&mut self, class: &str, name: &str, desc: &str) -> u16 {
        self.member(9, class, name, desc)
    }
}

/// A class `com/shi/x/Svc` with one `public static void run()` method.
fn class_with_code(mut pool: Pool, super_class: &str, code: Vec<u8>) -> Vec<u8> {
    let this = pool.class("com/shi/x/Svc");
    let sup = pool.class(super_class);
    let name = pool.utf8("run");
    let desc = pool.utf8("()V");
    let code_attr = pool.utf8("Code");
    let mut b: Vec<u8> = vec![0xCA, 0xFE, 0xBA, 0xBE, 0, 0, 0, 52];
    b.extend_from_slice(&pool.count.to_be_bytes());
    b.extend_from_slice(&pool.bytes);
    b.extend_from_slice(&[0, 0x21]);
    b.extend_from_slice(&this.to_be_bytes());
    b.extend_from_slice(&sup.to_be_bytes());
    b.extend_from_slice(&[0, 0, 0, 0, 0, 1, 0, 9]);
    b.extend_from_slice(&name.to_be_bytes());
    b.extend_from_slice(&desc.to_be_bytes());
    b.extend_from_slice(&[0, 1]);
    b.extend_from_slice(&code_attr.to_be_bytes());
    b.extend_from_slice(&((12 + code.len()) as u32).to_be_bytes());
    b.extend_from_slice(&[0, 10, 0, 10]);
    b.extend_from_slice(&(code.len() as u32).to_be_bytes());
    b.extend_from_slice(&code);
    b.extend_from_slice(&[0, 0, 0, 0, 0, 0]);
    b
}

fn op16(op: u8, i: u16) -> Vec<u8> {
    vec![op, (i >> 8) as u8, i as u8]
}

fn run_analysis(bytes: Vec<u8>) -> xfdl_analyzer::parser::class_analyzer::ClassAnalysisResult {
    let java = "/p/src/java/com/shi/x/Svc.java";
    analyze_class(java, "run", &vec![input("/c/Svc.class", "Svc.class", Ok(bytes))]).unwrap()
}

#[test]
fn references_sorted_once() {
    let mut pool = Pool::new();
    let z = pool.method("com/x/Z", "z", "()V");
    let a = pool.method("com/x/A", "a", "()V");
    let mut code = Vec::new();
    code.extend(op16(0xB8, z));
    code.extend(op16(0xB8, a));
    code.extend(op16(0xB8, z));
    code.push(0xB1);
    let r = run_analysis(class_with_code(pool, "java/lang/Object", code));
    let refs: Vec<(String, String)> =
        r.references.iter().map(|c| (c.class_name.clone(), c.method_name.clone())).collect();
    assert_eq!(
        refs,
        vec![("com.x.A".to_string(), "a".to_string()), ("com.x.Z".to_string(), "z".to_string())]
    );
    assert!(r.queries.is_empty());
}

#[test]
fn query_ids_from_fields_and_variables() {
    let mut pool = Pool::new();
    let id = pool.field("com/x/Q", "ID", "Ljava/lang/String;");
    let n = pool.field("com/x/Q", "N", "I");
    let select = pool.method("com/x/QDao", "select", "(Ljava/lang/String;)V");
    let count = pool.method("com/x/QDao", "count", "()V");
    let mut code = Vec::new();
    code.extend(op16(0xB2, id)); // getstatic Q.ID
    code.extend(op16(0xB8, select));
    code.push(0x2B); // aload_1
    code.extend(op16(0xB8, select));
    code.extend(op16(0xB8, count));
    code.extend(op16(0xB2, n)); // getstatic Q.N (not a string)
    code.extend(op16(0xB8, select));
    code.push(0x2A); // aload_0 is not tracked
    code.extend(op16(0xB8, count));
    code.push(0xB1);
    let r = run_analysis(class_with_code(pool, "java/lang/Object", code));
    let ids: Vec<&str> = r.queries.iter().map(|q| q.query_id.as_str()).collect();
    assert_eq!(
        ids,
        vec!["[com.x.Q.ID]", "[변수 확인 필요]", "[변수 확인 필요]", "[변수 확인 필요]", "[변수 확인 필요]"]
    );
    assert_eq!(r.queries[2].call_method, "count");
}

#[test]
fn dao_subclass_and_callback() {
    let mut pool = Pool::new();
    let s = pool.utf8("user.find");
    let lit = pool.add(vec![8, (s >> 8) as u8, s as u8]);
    let helper = pool.method("com/x/Helper", "h", "(Ljava/lang/String;)V");
    let init = pool.method("com/shi/framework/service/ServiceCallback", "<init>", "()V");
    let mut code = Vec::new();
    code.extend(vec![0x13, (lit >> 8) as u8, lit as u8]); // ldc_w
    code.extend(op16(0xB6, helper)); // invokevirtual
    code.extend(op16(0xB7, init)); // invokespecial
    code.push(0xB1);
    let r = run_analysis(class_with_code(pool, "com/shi/framework/service/FrameworkDao", code));
    assert_eq!(r.queries.len(), 2);
    assert_eq!(r.queries[0].dao_class, "com.x.Helper");
    assert_eq!(r.queries[0].query_id, "user.find");
    assert!(r
        .logs
        .contains(&"[ANALYZER]   → ServiceCallback 생성 감지 (익명 클래스의 doit() 자동 분석됨)".to_string()));
}
