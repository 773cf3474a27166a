//! Reading compiled `.class` files: the methods that the analyzed methods
//! call, and the DAO calls among them with the query id handed to each.
//! The class files are found and read by the caller; their bytes are
//! parsed here through `cafebabe`.
use vstd::prelude::*;

use cafebabe::attributes::AttributeData;
use cafebabe::bytecode::Opcode;
use cafebabe::constant_pool::LiteralConstant::String as Text;
use cafebabe::constant_pool::Loadable::LiteralConstant as Constant;
use cafebabe::constant_pool::MemberRef;

use crate::order::{
    pair_order, strictly_sorted_by,
    sorted_set,
    lemma_pair_total, lemma_pair_transitive, lemma_sorted_pair_set, lex_less, pair_lt, sorted_pair_set,
    sorted_pairs_of,
};
use crate::text::{
    string_views, opt_str, starts_with, chars_of, concat, decimal, decimal_of, ends_with, ends_with_chars, eq_chars,
    find_sub, find_sub_chars, lit, lowercase, lowercase_of, replace_char, replace_char_of,
    string_of, views,
};

verus! {

// ───────────────────────── results ─────────────────────────

/// A method that an analyzed method calls: its class (with `.` between
/// package names) and its name.
#[derive(Debug, Clone, PartialEq, Eq, PartialOrd, Ord)]
pub struct MethodCall {
    pub class_name: String,
    pub method_name: String,
}

/// A call of a DAO method and the query id handed to it.
#[derive(Debug, Clone)]
pub struct FoundQuery {
    pub dao_class: String,
    pub call_method: String,
    /// A string literal, `[Class.FIELD]` for a static field, or
    /// `[변수 확인 필요]` when the value is not known.
    pub query_id: String,
}

/// What the analysis of one Java class found.
#[derive(Debug, Clone)]
pub struct ClassAnalysisResult {
    /// The first class file analyzed.
    pub class_file: String,
    /// The calls made, sorted, each once.
    pub references: Vec<MethodCall>,
    /// The DAO calls, in the order met.
    pub queries: Vec<FoundQuery>,
    pub logs: Vec<String>,
}

impl View for MethodCall {
    type V = (Seq<char>, Seq<char>);

    open spec fn view(&self) -> (Seq<char>, Seq<char>) {
        (self.class_name@, self.method_name@)
    }
}

impl View for FoundQuery {
    type V = (Seq<char>, Seq<char>, Seq<char>);

    open spec fn view(&self) -> (Seq<char>, Seq<char>, Seq<char>) {
        (self.dao_class@, self.call_method@, self.query_id@)
    }
}

pub open spec fn calls_view(v: Seq<MethodCall>) -> Seq<(Seq<char>, Seq<char>)> {
    v.map_values(|c: MethodCall| c@)
}

pub open spec fn queries_view(v: Seq<FoundQuery>) -> Seq<(Seq<char>, Seq<char>, Seq<char>)> {
    v.map_values(|q: FoundQuery| q@)
}

/// (first class file, references, queries, logs)
pub type ResultView = (Seq<char>, Seq<(Seq<char>, Seq<char>)>, Seq<(Seq<char>, Seq<char>, Seq<char>)>, Seq<Seq<char>>);

pub open spec fn result_view(r: ClassAnalysisResult) -> ResultView {
    (r.class_file@, calls_view(r.references@), queries_view(r.queries@), string_views(r.logs@))
}

// ───────────────────────── the class file model ─────────────────────────

/// A field or method reference: class (with `/` between package names),
/// member name, descriptor.
#[derive(Debug, Clone)]
pub struct JvmRef {
    pub class_name: String,
    pub name: String,
    pub descriptor: String,
}

/// The instructions that the analysis tells apart.
#[derive(Debug, Clone)]
pub enum JvmOp {
    /// `ldc` / `ldc_w` of a string constant.
    LdcString(String),
    Getstatic(JvmRef),
    Aload(u16),
    /// `invokevirtual`, `invokestatic`, `invokespecial` or `invokeinterface`.
    Invoke(JvmRef),
    Other,
}

/// A method: its name and, for each `Code` attribute whose bytecode was
/// read, its instructions in order.
#[derive(Debug, Clone)]
pub struct JvmMethod {
    pub name: String,
    pub code: Vec<Vec<JvmOp>>,
}

/// A parsed class: its super class and its methods in order.
#[derive(Debug, Clone)]
pub struct JvmClass {
    pub super_class: Option<String>,
    pub methods: Vec<JvmMethod>,
}

pub type RefView = (Seq<char>, Seq<char>, Seq<char>);

pub enum OpView {
    LdcString(Seq<char>),
    Getstatic(RefView),
    Aload(u16),
    Invoke(RefView),
    Other,
}

/// (name, instructions of each code attribute)
pub type MethodView = (Seq<char>, Seq<Seq<OpView>>);

/// (super class, methods)
pub type ClassView = (Option<Seq<char>>, Seq<MethodView>);

impl View for JvmRef {
    type V = RefView;

    open spec fn view(&self) -> RefView {
        (self.class_name@, self.name@, self.descriptor@)
    }
}

impl View for JvmOp {
    type V = OpView;

    open spec fn view(&self) -> OpView {
        match self {
            JvmOp::LdcString(s) => OpView::LdcString(s@),
            JvmOp::Getstatic(r) => OpView::Getstatic(r@),
            JvmOp::Aload(n) => OpView::Aload(*n),
            JvmOp::Invoke(r) => OpView::Invoke(r@),
            JvmOp::Other => OpView::Other,
        }
    }
}

pub open spec fn ops_view(v: Seq<JvmOp>) -> Seq<OpView> {
    v.map_values(|o: JvmOp| o@)
}

pub open spec fn code_view(v: Seq<Vec<JvmOp>>) -> Seq<Seq<OpView>> {
    v.map_values(|c: Vec<JvmOp>| ops_view(c@))
}

impl View for JvmMethod {
    type V = MethodView;

    open spec fn view(&self) -> MethodView {
        (self.name@, code_view(self.code@))
    }
}

impl View for JvmClass {
    type V = ClassView;

    open spec fn view(&self) -> ClassView {
        (
            match self.super_class {
                Some(s) => Some(s@),
                None => None,
            },
            self.methods@.map_values(|m: JvmMethod| m@),
        )
    }
}

pub open spec fn parse_result_view(r: Result<JvmClass, String>) -> Result<ClassView, Seq<char>> {
    match r {
        Ok(c) => Ok(c@),
        Err(e) => Err(e@),
    }
}

/// What `cafebabe::parse_class` reads from the bytes of a class file, in
/// the model above, or the `Debug` text of its error.
pub uninterp spec fn parsed_class(bytes: Seq<u8>) -> Result<ClassView, Seq<char>>;

#[verifier::external_type_specification]
#[verifier::external_body]
pub struct ExOpcode<'a>(Opcode<'a>);

#[verifier::external_type_specification]
#[verifier::external_body]
pub struct ExMemberRef<'a>(MemberRef<'a>);

/// Converts a `cafebabe` instruction, one arm for each kind told apart;
/// a member reference is converted field by field.
#[verifier::external_body]
fn jvm_op_of(o: &Opcode) -> JvmOp {
    let r = |x: &MemberRef| JvmRef { class_name: x.class_name.to_string(), name: x.name_and_type.name.to_string(), descriptor: x.name_and_type.descriptor.to_string() };
    match o {
        Opcode::Ldc(Constant(Text(s))) | Opcode::LdcW(Constant(Text(s))) => JvmOp::LdcString(s.to_string()),
        Opcode::Getstatic(x) => JvmOp::Getstatic(r(x)),
        Opcode::Aload(n) => JvmOp::Aload(*n),
        Opcode::Invokevirtual(x) | Opcode::Invokestatic(x) | Opcode::Invokespecial(x) | Opcode::Invokeinterface(x, _) => JvmOp::Invoke(r(x)),
        _ => JvmOp::Other,
    }
}

/// Wraps `cafebabe::parse_class`: the super class, and for each method its
/// name and the instructions of each `Code` attribute that has bytecode.
/// The result, converted, is named by `parsed_class`.
#[verifier::external_body]
fn parse_jvm_class(bytes: &Vec<u8>) -> (r: Result<JvmClass, String>)
    ensures
        parse_result_view(r) == parsed_class(bytes@),
{
    match cafebabe::parse_class(bytes) {
        Ok(c) => Ok(JvmClass {
            super_class: c.super_class.map(|s| s.to_string()),
            methods: c.methods.iter().map(|m| JvmMethod {
                name: m.name.to_string(),
                code: m.attributes.iter().filter_map(|a| match &a.data {
                    AttributeData::Code(d) => d.bytecode.as_ref(),
                    _ => None,
                }).map(|b| b.opcodes.iter().map(|(_, o)| jvm_op_of(o)).collect()).collect(),
            }).collect(),
        }),
        Err(e) => Err(format!("{e:?}")),
    }
}

// ───────────────────────── class names ─────────────────────────

pub const FRAMEWORK_DAO: &'static str = "com.shi.framework.service.FrameworkDao";

pub const PROXY_DAO: &'static str = "com.shi.framework.service.ProxyDao";

pub const SERVICE_CALLBACK: &'static str = "com.shi.framework.service.ServiceCallback";

/// A class name with `.` in place of `/`.
pub open spec fn dotted(s: Seq<char>) -> Seq<char> {
    replace_char(s, '/', '.')
}

pub open spec fn framework_dao(class_name: Seq<char>) -> bool {
    dotted(class_name) == FRAMEWORK_DAO@ || dotted(class_name) == PROXY_DAO@
}

pub open spec fn service_callback(class_name: Seq<char>) -> bool {
    dotted(class_name) == SERVICE_CALLBACK@
}

/// Whether a class (with `/` or `.` between package names) is
/// `FrameworkDao` or `ProxyDao`.
pub fn is_framework_dao_class(class_name: &str) -> (r: bool)
    ensures
        r == framework_dao(class_name@),
{
    let n = replace_char_of(&chars_of(class_name), '/', '.');
    eq_chars(&n, &lit(FRAMEWORK_DAO)) || eq_chars(&n, &lit(PROXY_DAO))
}

/// Whether a class is `ServiceCallback`.
pub fn is_service_callback_class(class_name: &str) -> (r: bool)
    ensures
        r == service_callback(class_name@),
{
    let n = replace_char_of(&chars_of(class_name), '/', '.');
    eq_chars(&n, &lit(SERVICE_CALLBACK))
}

// ───────────────────────── value tracking ─────────────────────────

pub const UNKNOWN_VALUE: &'static str = "[변수 확인 필요]";

pub const STRING_DESCRIPTOR: &'static str = "Ljava/lang/String;";

/// The candidates for the next call's first argument, oldest first.
pub struct SimpleValueTracker {
    pub pending: Vec<String>,
}

impl View for SimpleValueTracker {
    type V = Seq<Seq<char>>;

    open spec fn view(&self) -> Seq<Seq<char>> {
        string_views(self.pending@)
    }
}

/// The label of a static field: `[Class.FIELD]` with the class dotted.
pub open spec fn field_label(class_name: Seq<char>, field_name: Seq<char>) -> Seq<char> {
    "["@ + dotted(class_name) + "."@ + field_name + "]"@
}

impl SimpleValueTracker {
    pub fn new() -> (r: SimpleValueTracker)
        ensures
            r@ == Seq::<Seq<char>>::empty(),
    {
        SimpleValueTracker { pending: Vec::new() }
    }

    /// A string constant was loaded.
    pub fn push_literal(&mut self, s: String)
        ensures
            final(self)@ == old(self)@.push(s@),
    {
        self.pending.push(s);
        assert(self@ =~= old(self)@.push(s@));
    }

    /// A static field was loaded.
    pub fn push_field(&mut self, class_name: &str, field_name: &str)
        ensures
            final(self)@ == old(self)@.push(field_label(class_name@, field_name@)),
    {
        let a = concat(&lit("["), &replace_char_of(&chars_of(class_name), '/', '.'));
        let b = concat(&a, &lit("."));
        let c = concat(&b, &chars_of(field_name));
        let d = concat(&c, &lit("]"));
        self.pending.push(string_of(&d));
        assert(self@ =~= old(self)@.push(field_label(class_name@, field_name@)));
    }

    /// A value of unknown content was loaded.
    pub fn push_unknown(&mut self)
        ensures
            final(self)@ == old(self)@.push(UNKNOWN_VALUE@),
    {
        self.pending.push(string_of(&lit(UNKNOWN_VALUE)));
        assert(self@ =~= old(self)@.push(UNKNOWN_VALUE@));
    }

    /// Takes the newest candidate.
    pub fn pop_for_call(&mut self) -> (r: Option<String>)
        ensures
            old(self)@.len() == 0 ==> r is None && final(self)@ == old(self)@,
            old(self)@.len() > 0 ==> (r matches Some(s) && s@ == old(self)@.last() && final(self)@ == old(self)@.drop_last()),
    {
        let r = self.pending.pop();
        assert(self@ =~= old(self)@.drop_last() || old(self)@.len() == 0);
        r
    }

    /// Forgets every candidate.
    pub fn clear(&mut self)
        ensures
            final(self)@ == Seq::<Seq<char>>::empty(),
    {
        self.pending.clear();
        assert(self@ =~= Seq::<Seq<char>>::empty());
    }
}

// ───────────────────────── the scan ─────────────────────────

/// (references, queries, logs) gathered so far.
pub type ScanView = (Seq<(Seq<char>, Seq<char>)>, Seq<(Seq<char>, Seq<char>, Seq<char>)>, Seq<Seq<char>>);

pub const CALLBACK_LOG: &'static str = "[ANALYZER]   → ServiceCallback 생성 감지 (익명 클래스의 doit() 자동 분석됨)";

/// What an instruction other than a call puts among the candidates.
pub open spec fn loaded_value(op: OpView) -> Option<Seq<char>> {
    match op {
        OpView::LdcString(s) => Some(s),
        OpView::Getstatic(r) => Some(
            if r.2 == STRING_DESCRIPTOR@ {
                field_label(r.0, r.1)
            } else {
                UNKNOWN_VALUE@
            },
        ),
        OpView::Aload(n) => if n != 0 {
            Some(UNKNOWN_VALUE@)
        } else {
            None
        },
        _ => None,
    }
}

/// The lower-case form of the class name ends in `dao`; for an ASCII name
/// the lower-case form is the ASCII one.
pub open spec fn ends_in_dao(class_name: Seq<char>) -> bool {
    if crate::text::all_ascii(class_name) {
        ends_with(crate::text::ascii_lowercase(class_name), "dao"@)
    } else {
        ends_with(lowercase(class_name), "dao"@)
    }
}

/// A call counts as a DAO call when its class is `FrameworkDao` or
/// `ProxyDao`, when the analyzed class extends one of them, or when the
/// class name ends in `dao` (any case).
pub open spec fn dao_call(class_name: Seq<char>, super_dao: bool) -> bool {
    framework_dao(class_name) || super_dao || ends_in_dao(class_name)
}

/// A class with an ASCII name ending in `dao` in any letter case (`DAO`,
/// `Dao`, `dAo`, ...) is a DAO class, whatever it extends; one whose name
/// does not end so is a DAO class only as `FrameworkDao` / `ProxyDao` or
/// through the analyzed class's superclass.
pub proof fn law_dao_suffix_any_case(class_name: Seq<char>, super_dao: bool)
    requires
        crate::text::all_ascii(class_name),
    ensures
        ({
            let n = class_name.len();
            let suffix = n >= 3 && crate::text::ascii_lower(class_name[n - 3]) == 'd'
                && crate::text::ascii_lower(class_name[n - 2]) == 'a'
                && crate::text::ascii_lower(class_name[n - 1]) == 'o';
            &&& suffix ==> dao_call(class_name, super_dao)
            &&& dao_call(class_name, super_dao) <==> (framework_dao(class_name) || super_dao || suffix)
        }),
{
    reveal_strlit("dao");
    let n = class_name.len();
    let l = crate::text::ascii_lowercase(class_name);
    if n >= 3 {
        let t = l.skip(n - 3);
        assert(t[0] == crate::text::ascii_lower(class_name[n - 3]));
        assert(t[1] == crate::text::ascii_lower(class_name[n - 2]));
        assert(t[2] == crate::text::ascii_lower(class_name[n - 1]));
        if t == "dao"@ {
            assert(t[0] == 'd' && t[1] == 'a' && t[2] == 'o');
        }
        if crate::text::ascii_lower(class_name[n - 3]) == 'd' && crate::text::ascii_lower(class_name[n - 2]) == 'a'
            && crate::text::ascii_lower(class_name[n - 1]) == 'o' {
            assert(t =~= "dao"@);
        }
    }
}

pub open spec fn query_log(class_name: Seq<char>, method: Seq<char>, query_id: Seq<char>) -> Seq<char> {
    "[ANALYZER]   → QUERY 발견: "@ + class_name + "."@ + method + "("@ + query_id + ")"@
}

/// A call: recorded as a reference; for a DAO call, the newest candidate
/// (or `[변수 확인 필요]`) is its query id; the candidates are then dropped.
pub open spec fn invoke_step(pending: Seq<Seq<char>>, st: ScanView, r: RefView, super_dao: bool) -> ScanView {
    let cls = dotted(r.0);
    let name = r.1;
    let qid = if pending.len() > 0 {
        pending.last()
    } else {
        UNKNOWN_VALUE@
    };
    let dao = dao_call(cls, super_dao);
    let queries = if dao {
        st.1.push((cls, name, qid))
    } else {
        st.1
    };
    let logs1 = if dao {
        st.2.push(query_log(cls, name, qid))
    } else {
        st.2
    };
    let logs2 = if service_callback(cls) && name == "<init>"@ {
        logs1.push(CALLBACK_LOG@)
    } else {
        logs1
    };
    (st.0.push((cls, name)), queries, logs2)
}

/// One instruction, with the candidates before it.
pub open spec fn op_step(s: (Seq<Seq<char>>, ScanView), op: OpView, super_dao: bool) -> (Seq<Seq<char>>, ScanView) {
    match op {
        OpView::Invoke(r) => (Seq::empty(), invoke_step(s.0, s.1, r, super_dao)),
        _ => match loaded_value(op) {
            Some(v) => (s.0.push(v), s.1),
            None => s,
        },
    }
}

/// The instructions of one code attribute, from no candidates.
pub open spec fn ops_scan(st: ScanView, ops: Seq<OpView>, super_dao: bool) -> (Seq<Seq<char>>, ScanView)
    decreases ops.len(),
{
    if ops.len() == 0 {
        (Seq::empty(), st)
    } else {
        op_step(ops_scan(st, ops.drop_last(), super_dao), ops.last(), super_dao)
    }
}

/// The code attributes of a method, one after another.
pub open spec fn codes_scan(st: ScanView, codes: Seq<Seq<OpView>>, super_dao: bool) -> ScanView
    decreases codes.len(),
{
    if codes.len() == 0 {
        st
    } else {
        ops_scan(codes_scan(st, codes.drop_last(), super_dao), codes.last(), super_dao).1
    }
}

/// A file whose name holds `$` holds an anonymous or inner class.
pub open spec fn anonymous_file(file_name: Option<Seq<char>>) -> bool {
    file_name matches Some(f) && f.contains('$')
}

/// The methods analyzed: the one asked for, the extra ones, and `doit` in
/// an anonymous class.
pub open spec fn analyzed(name: Seq<char>, method_name: Seq<char>, extras: Seq<Seq<char>>, file_name: Option<Seq<char>>) -> bool {
    name == method_name || extras.contains(name) || (anonymous_file(file_name) && name == "doit"@)
}

pub open spec fn method_log(name: Seq<char>, file_name: Option<Seq<char>>) -> Seq<char> {
    "[ANALYZER] 메서드 분석: "@ + name + " (in "@ + (match file_name {
        Some(f) => f,
        None => "?"@,
    }) + ")"@
}

/// One method of a class.
pub open spec fn method_step(st: ScanView, m: MethodView, method_name: Seq<char>, extras: Seq<Seq<char>>, file_name: Option<Seq<char>>, super_dao: bool) -> ScanView {
    if analyzed(m.0, method_name, extras, file_name) {
        codes_scan((st.0, st.1, st.2.push(method_log(m.0, file_name))), m.1, super_dao)
    } else {
        st
    }
}

pub open spec fn methods_scan(st: ScanView, ms: Seq<MethodView>, method_name: Seq<char>, extras: Seq<Seq<char>>, file_name: Option<Seq<char>>, super_dao: bool) -> ScanView
    decreases ms.len(),
{
    if ms.len() == 0 {
        st
    } else {
        method_step(methods_scan(st, ms.drop_last(), method_name, extras, file_name, super_dao), ms.last(), method_name, extras, file_name, super_dao)
    }
}

pub open spec fn super_is_dao(super_class: Option<Seq<char>>) -> bool {
    super_class matches Some(s) && framework_dao(s)
}

/// A whole parsed class.
pub open spec fn class_scan(st: ScanView, c: ClassView, method_name: Seq<char>, extras: Seq<Seq<char>>, file_name: Option<Seq<char>>) -> ScanView {
    methods_scan(st, c.1, method_name, extras, file_name, super_is_dao(c.0))
}

/// What has been gathered so far.
pub struct ClassScan {
    pub references: Vec<MethodCall>,
    pub queries: Vec<FoundQuery>,
    pub logs: Vec<String>,
}

impl View for ClassScan {
    type V = ScanView;

    open spec fn view(&self) -> ScanView {
        (calls_view(self.references@), queries_view(self.queries@), string_views(self.logs@))
    }
}

fn scan_invoke(acc: &mut ClassScan, tracker: &mut SimpleValueTracker, r: &JvmRef, super_dao: bool)
    ensures
        final(acc)@ == invoke_step(old(tracker)@, old(acc)@, r@, super_dao),
        final(tracker)@ == Seq::<Seq<char>>::empty(),
{
    let cls_c = replace_char_of(&chars_of(r.class_name.as_str()), '/', '.');
    let cls = string_of(&cls_c);
    let low = lowercase_of(&cls_c);
    let dao = is_framework_dao_class(cls.as_str()) || super_dao || ends_with_chars(&low, &lit("dao"));
    let ghost st = old(acc)@;
    let ghost pending = old(tracker)@;
    if dao {
        let qid = match tracker.pop_for_call() {
            Some(s) => s,
            None => string_of(&lit(UNKNOWN_VALUE)),
        };
        let l1 = concat(&lit("[ANALYZER]   → QUERY 발견: "), &cls_c);
        let l2 = concat(&l1, &lit("."));
        let l3 = concat(&l2, &chars_of(r.name.as_str()));
        let l4 = concat(&l3, &lit("("));
        let l5 = concat(&l4, &chars_of(qid.as_str()));
        let l6 = concat(&l5, &lit(")"));
        acc.logs.push(string_of(&l6));
        acc.queries.push(FoundQuery { dao_class: cls.clone(), call_method: r.name.clone(), query_id: qid });
    }
    let ghost mid = acc@;
    if is_service_callback_class(cls.as_str()) && eq_chars(&chars_of(r.name.as_str()), &lit("<init>")) {
        acc.logs.push(string_of(&lit(CALLBACK_LOG)));
    }
    acc.references.push(MethodCall { class_name: cls, method_name: r.name.clone() });
    tracker.clear();
    proof {
        let e = invoke_step(pending, st, r@, super_dao);
        assert(acc@.0 =~= e.0);
        assert(acc@.1 =~= e.1);
        assert(acc@.2 =~= e.2);
    }
}

fn scan_op(acc: &mut ClassScan, tracker: &mut SimpleValueTracker, op: &JvmOp, super_dao: bool)
    ensures
        (final(tracker)@, final(acc)@) == op_step((old(tracker)@, old(acc)@), op@, super_dao),
{
    match op {
        JvmOp::LdcString(s) => {
            tracker.push_literal(s.clone());
        },
        JvmOp::Getstatic(r) => {
            if eq_chars(&chars_of(r.descriptor.as_str()), &lit(STRING_DESCRIPTOR)) {
                tracker.push_field(r.class_name.as_str(), r.name.as_str());
            } else {
                tracker.push_unknown();
            }
        },
        JvmOp::Aload(n) => {
            if *n != 0 {
                tracker.push_unknown();
            }
        },
        JvmOp::Invoke(r) => {
            scan_invoke(acc, tracker, r, super_dao);
        },
        JvmOp::Other => {},
    }
}

fn scan_code(acc: &mut ClassScan, ops: &Vec<JvmOp>, super_dao: bool)
    ensures
        final(acc)@ == ops_scan(old(acc)@, ops_view(ops@), super_dao).1,
{
    let ghost st = acc@;
    let ghost ov = ops_view(ops@);
    let mut tracker = SimpleValueTracker::new();
    let mut i: usize = 0;
    assert(ov.take(0) =~= Seq::<OpView>::empty());
    while i < ops.len()
        invariant
            i <= ops.len(),
            ov == ops_view(ops@),
            (tracker@, acc@) == ops_scan(st, ov.take(i as int), super_dao),
        decreases ops.len() - i,
    {
        assert(ov.take(i + 1).drop_last() =~= ov.take(i as int));
        assert(ov.take(i + 1).last() == ops@[i as int]@);
        scan_op(acc, &mut tracker, &ops[i], super_dao);
        i += 1;
    }
    assert(ov.take(ops@.len() as int) =~= ov);
}

fn is_analyzed(name: &String, method_name: &str, extra_methods: &Vec<String>, file_name: &Option<String>) -> (r: bool)
    ensures
        r == analyzed(name@, method_name@, string_views(extra_methods@), opt_str(*file_name)),
{
    let nc = chars_of(name.as_str());
    if eq_chars(&nc, &chars_of(method_name)) {
        return true;
    }
    let ghost ev = string_views(extra_methods@);
    let mut i: usize = 0;
    while i < extra_methods.len()
        invariant
            i <= extra_methods.len(),
            nc@ == name@,
            ev == string_views(extra_methods@),
            forall|j: int| 0 <= j < i ==> ev[j] != name@,
        decreases extra_methods.len() - i,
    {
        if eq_chars(&nc, &chars_of(extra_methods[i].as_str())) {
            assert(ev[i as int] == name@);
            return true;
        }
        i += 1;
    }
    let anon = match file_name {
        Some(f) => {
            let fc = chars_of(f.as_str());
            let at = crate::text::find_char_of(&fc, '$');
            proof {
                crate::text::lemma_find_char_facts(fc@, '$');
            }
            at.is_some()
        },
        None => false,
    };
    anon && eq_chars(&nc, &lit("doit"))
}

fn scan_method(acc: &mut ClassScan, m: &JvmMethod, method_name: &str, extra_methods: &Vec<String>, file_name: &Option<String>, super_dao: bool)
    ensures
        final(acc)@ == method_step(old(acc)@, m@, method_name@, string_views(extra_methods@), opt_str(*file_name), super_dao),
{
    if !is_analyzed(&m.name, method_name, extra_methods, file_name) {
        return;
    }
    let shown = match file_name {
        Some(f) => chars_of(f.as_str()),
        None => lit("?"),
    };
    let l1 = concat(&lit("[ANALYZER] 메서드 분석: "), &chars_of(m.name.as_str()));
    let l2 = concat(&l1, &lit(" (in "));
    let l3 = concat(&l2, &shown);
    let l4 = concat(&l3, &lit(")"));
    acc.logs.push(string_of(&l4));
    let ghost st = acc@;
    assert(st =~= (old(acc)@.0, old(acc)@.1, old(acc)@.2.push(method_log(m@.0, opt_str(*file_name)))));
    let ghost cv = code_view(m.code@);
    let mut i: usize = 0;
    assert(cv.take(0) =~= Seq::<Seq<OpView>>::empty());
    while i < m.code.len()
        invariant
            i <= m.code.len(),
            cv == code_view(m.code@),
            acc@ == codes_scan(st, cv.take(i as int), super_dao),
        decreases m.code.len() - i,
    {
        assert(cv.take(i + 1).drop_last() =~= cv.take(i as int));
        assert(cv.take(i + 1).last() == ops_view(m.code@[i as int]@));
        scan_code(acc, &m.code[i], super_dao);
        i += 1;
    }
    assert(cv.take(m.code@.len() as int) =~= cv);
}

/// Goes through the methods of a parsed class: each analyzed method is
/// logged, and each call in its code is recorded as a reference, with a
/// query for a DAO call.
pub fn scan_class(acc: &mut ClassScan, class: &JvmClass, method_name: &str, extra_methods: &Vec<String>, file_name: &Option<String>)
    ensures
        final(acc)@ == class_scan(old(acc)@, class@, method_name@, string_views(extra_methods@), opt_str(*file_name)),
{
    let super_dao = match &class.super_class {
        Some(s) => is_framework_dao_class(s.as_str()),
        None => false,
    };
    let ghost st = acc@;
    let ghost mv = class.methods@.map_values(|m: JvmMethod| m@);
    let mut i: usize = 0;
    assert(mv.take(0) =~= Seq::<MethodView>::empty());
    while i < class.methods.len()
        invariant
            i <= class.methods.len(),
            mv == class.methods@.map_values(|m: JvmMethod| m@),
            super_dao == super_is_dao(class@.0),
            acc@ == methods_scan(st, mv.take(i as int), method_name@, string_views(extra_methods@), opt_str(*file_name), super_dao),
        decreases class.methods.len() - i,
    {
        assert(mv.take(i + 1).drop_last() =~= mv.take(i as int));
        assert(mv.take(i + 1).last() == class.methods@[i as int]@);
        scan_method(acc, &class.methods[i], method_name, extra_methods, file_name, super_dao);
        i += 1;
    }
    assert(mv.take(class.methods@.len() as int) =~= mv);
}

// ───────────────────────── one Java class ─────────────────────────

/// The marker after which a Java source path is relative to the source root.
pub const SRC_JAVA: &'static str = "src/java/";

/// `path` after the first `marker`, both with `/` for `\`, the marker
/// found whatever the case; positions count characters.
pub open spec fn relative_after(path: Seq<char>, marker: Seq<char>) -> Option<Seq<char>> {
    let norm = replace_char(path, '\\', '/');
    let mk = replace_char(marker, '\\', '/');
    match find_sub(lowercase(norm), lowercase(mk)) {
        None => None,
        Some(p) => Some(
            if p + mk.len() <= norm.len() {
                norm.skip(p + mk.len())
            } else {
                Seq::empty()
            },
        ),
    }
}

/// The part of a path after `marker` (found whatever the case).
#[verifier::rlimit(40)]
pub fn extract_relative_path(full_path: &str, marker: &str) -> (r: Option<String>)
    ensures
        opt_str(r) == relative_after(full_path@, marker@),
{
    let norm = replace_char_of(&chars_of(full_path), '\\', '/');
    let mk = replace_char_of(&chars_of(marker), '\\', '/');
    match find_sub_chars(&lowercase_of(&norm), &lowercase_of(&mk)) {
        None => None,
        Some(p) => {
            if p <= norm.len() && mk.len() <= norm.len() - p {
                let rest = crate::text::slice(&norm, p + mk.len(), norm.len());
                assert(rest@ =~= norm@.skip(p + mk@.len()));
                Some(string_of(&rest))
            } else {
                Some(String::new())
            }
        },
    }
}

/// What `Path::new(p).with_extension("")` gives, as a string: `p` without
/// the extension of its last component.
pub uninterp spec fn without_extension(p: Seq<char>) -> Seq<char>;

/// Wraps `Path::with_extension("")`; the result is named by
/// `without_extension`.
#[verifier::external_body]
fn path_without_extension(p: &str) -> (r: String)
    ensures
        r@ == without_extension(p@),
{
    std::path::Path::new(p).with_extension("").to_string_lossy().to_string()
}

/// The class path of a Java source (after `src/java/`, without the
/// extension), or the message when the path has no `src/java/`.
pub open spec fn class_stem_of(java_file: Seq<char>) -> Result<Seq<char>, Seq<char>> {
    match relative_after(java_file, SRC_JAVA@) {
        None => Err("Java 파일 경로에서 'src/java/' 를 찾을 수 없음: "@ + java_file),
        Some(rel) => Ok(replace_char(without_extension(rel), '\\', '/')),
    }
}

pub open spec fn string_result(r: Result<String, String>) -> Result<Seq<char>, Seq<char>> {
    match r {
        Ok(s) => Ok(s@),
        Err(e) => Err(e@),
    }
}

/// The class path of a Java source file, e.g. `com/x/FooService` for
/// `/p/src/java/com/x/FooService.java`.
pub fn class_stem(java_file: &str) -> (r: Result<String, String>)
    ensures
        string_result(r) == class_stem_of(java_file@),
{
    match extract_relative_path(java_file, SRC_JAVA) {
        None => {
            let m = concat(&lit("Java 파일 경로에서 'src/java/' 를 찾을 수 없음: "), &chars_of(java_file));
            Err(string_of(&m))
        },
        Some(rel) => {
            let s = path_without_extension(rel.as_str());
            Ok(string_of(&replace_char_of(&chars_of(s.as_str()), '\\', '/')))
        },
    }
}

/// A class file found for the analyzed class: its path as shown, its file
/// name (when it is valid text), and its bytes or the read error.
#[derive(Debug)]
pub struct ClassFileInput {
    pub path: String,
    pub file_name: Option<String>,
    pub bytes: Result<Vec<u8>, String>,
}

pub type InputView = (Seq<char>, Option<Seq<char>>, Result<Seq<u8>, Seq<char>>);

impl View for ClassFileInput {
    type V = InputView;

    open spec fn view(&self) -> InputView {
        (
            self.path@,
            opt_str(self.file_name),
            match self.bytes {
                Ok(b) => Ok(b@),
                Err(e) => Err(e@),
            },
        )
    }
}

pub open spec fn inputs_view(v: Seq<ClassFileInput>) -> Seq<InputView> {
    v.map_values(|f: ClassFileInput| f@)
}

/// One class file: its read error, its parse error, or its scan.
pub open spec fn file_step(st: Result<ScanView, Seq<char>>, f: InputView, method_name: Seq<char>, extras: Seq<Seq<char>>) -> Result<ScanView, Seq<char>> {
    match st {
        Err(e) => Err(e),
        Ok(s) => match f.2 {
            Err(io) => Err(".class 파일 읽기 실패 ("@ + f.0 + "): "@ + io),
            Ok(b) => match parsed_class(b) {
                Err(e) => Err(".class 파싱 실패 ("@ + f.0 + "): "@ + e),
                Ok(c) => Ok(class_scan(s, c, method_name, extras, f.1)),
            },
        },
    }
}

pub open spec fn files_scan(st: ScanView, files: Seq<InputView>, method_name: Seq<char>, extras: Seq<Seq<char>>) -> Result<ScanView, Seq<char>>
    decreases files.len(),
{
    if files.len() == 0 {
        Ok(st)
    } else {
        file_step(files_scan(st, files.drop_last(), method_name, extras), files.last(), method_name, extras)
    }
}

pub open spec fn initial_logs(java_file: Seq<char>, files: Seq<InputView>) -> Seq<Seq<char>> {
    seq!["[ANALYZER] Java  파일: "@ + java_file, "[ANALYZER] Class 파일 목록 ("@ + decimal(files.len()) + " 개):"@]
        + files.map_values(|f: InputView| "  - "@ + f.0)
}

pub open spec fn summary_log(method_name: Seq<char>, n_refs: nat, n_queries: nat) -> Seq<char> {
    "[ANALYZER] 메서드 '"@ + method_name + "' 참조 총 "@ + decimal(n_refs) + "건, 쿼리 "@ + decimal(n_queries) + "건"@
}

/// The analysis of a Java class through its class files (the base class
/// file first): the error of the first file that cannot be read or parsed,
/// or the references (sorted, each once), the queries and the logs.
pub open spec fn class_analysis(java_file: Seq<char>, method_name: Seq<char>, extras: Seq<Seq<char>>, files: Seq<InputView>) -> Result<ResultView, Seq<char>> {
    match class_stem_of(java_file) {
        Err(e) => Err(e),
        Ok(stem) => if files.len() == 0 {
            Err(".class 파일을 찾을 수 없음: target/classes/"@ + stem + "*.class"@)
        } else {
            match files_scan((Seq::empty(), Seq::empty(), initial_logs(java_file, files)), files, method_name, extras) {
                Err(e) => Err(e),
                Ok(s) => {
                    let refs = sorted_pair_set(s.0);
                    Ok((files[0].0, refs, s.1, s.2.push(summary_log(method_name, refs.len(), s.1.len()))))
                },
            }
        },
    }
}

pub open spec fn analysis_view(r: Result<ClassAnalysisResult, String>) -> Result<ResultView, Seq<char>> {
    match r {
        Ok(a) => Ok(result_view(a)),
        Err(e) => Err(e@),
    }
}

proof fn lemma_scan_error_stays(st: ScanView, files: Seq<InputView>, i: int, method_name: Seq<char>, extras: Seq<Seq<char>>)
    requires
        0 <= i <= files.len(),
        files_scan(st, files.take(i), method_name, extras) is Err,
    ensures
        files_scan(st, files, method_name, extras) == files_scan(st, files.take(i), method_name, extras),
    decreases files.len() - i,
{
    if i < files.len() {
        assert(files.take(i + 1).drop_last() =~= files.take(i));
        lemma_scan_error_stays(st, files, i + 1, method_name, extras);
    } else {
        assert(files.take(i) =~= files);
    }
}

/// Analyzes the methods `method_name` and `extra_methods` of a Java class
/// (and `doit` in its anonymous classes) through its class files.
pub fn analyze_class_with_extra(java_file: &str, method_name: &str, extra_methods: &Vec<String>, class_files: &Vec<ClassFileInput>) -> (r: Result<ClassAnalysisResult, String>)
    ensures
        analysis_view(r) == class_analysis(java_file@, method_name@, string_views(extra_methods@), inputs_view(class_files@)),
        r matches Ok(a) ==> strictly_sorted_by(calls_view(a.references@), pair_order()),
{
    let stem = match class_stem(java_file) {
        Ok(s) => s,
        Err(e) => {
            return Err(e);
        },
    };
    if class_files.len() == 0 {
        let m1 = concat(&lit(".class 파일을 찾을 수 없음: target/classes/"), &chars_of(stem.as_str()));
        return Err(string_of(&concat(&m1, &lit("*.class"))));
    }
    let ghost iv = inputs_view(class_files@);
    let ghost exv = string_views(extra_methods@);
    let mut logs: Vec<String> = Vec::new();
    logs.push(string_of(&concat(&lit("[ANALYZER] Java  파일: "), &chars_of(java_file))));
    let c1 = concat(&lit("[ANALYZER] Class 파일 목록 ("), &decimal_of(class_files.len() as u128));
    logs.push(string_of(&concat(&c1, &lit(" 개):"))));
    let mut k: usize = 0;
    while k < class_files.len()
        invariant
            k <= class_files.len(),
            iv == inputs_view(class_files@),
            string_views(logs@) == seq![
                "[ANALYZER] Java  파일: "@ + java_file@,
                "[ANALYZER] Class 파일 목록 ("@ + decimal(iv.len()) + " 개):"@,
            ] + iv.take(k as int).map_values(|f: InputView| "  - "@ + f.0),
        decreases class_files.len() - k,
    {
        let ghost before = string_views(logs@);
        logs.push(string_of(&concat(&lit("  - "), &chars_of(class_files[k].path.as_str()))));
        assert(iv[k as int].0 == class_files@[k as int].path@);
        assert(iv.take(k + 1).map_values(|f: InputView| "  - "@ + f.0) =~= iv.take(k as int).map_values(|f: InputView| "  - "@ + f.0).push("  - "@ + iv[k as int].0));
        assert(string_views(logs@) =~= before.push("  - "@ + iv[k as int].0));
        k += 1;
    }
    assert(iv.take(iv.len() as int) =~= iv);
    let mut acc = ClassScan { references: Vec::new(), queries: Vec::new(), logs };
    let ghost st0: ScanView = (Seq::empty(), Seq::empty(), initial_logs(java_file@, iv));
    assert(acc@ =~= st0);
    let mut i: usize = 0;
    assert(iv.take(0) =~= Seq::<InputView>::empty());
    while i < class_files.len()
        invariant
            i <= class_files.len(),
            iv == inputs_view(class_files@),
            exv == string_views(extra_methods@),
            class_stem_of(java_file@) is Ok,
            class_files.len() > 0,
            st0 == (Seq::<(Seq<char>, Seq<char>)>::empty(), Seq::<(Seq<char>, Seq<char>, Seq<char>)>::empty(), initial_logs(java_file@, iv)),
            files_scan(st0, iv.take(i as int), method_name@, exv) == Ok::<ScanView, Seq<char>>(acc@),
        decreases class_files.len() - i,
    {
        let f = &class_files[i];
        assert(iv.take(i + 1).drop_last() =~= iv.take(i as int));
        assert(iv.take(i + 1).last() == f@);
        match &f.bytes {
            Err(io) => {
                let m1 = concat(&lit(".class 파일 읽기 실패 ("), &chars_of(f.path.as_str()));
                let m2 = concat(&m1, &lit("): "));
                let m = string_of(&concat(&m2, &chars_of(io.as_str())));
                proof {
                    assert(f@.2 == Err::<Seq<u8>, Seq<char>>(io@));
                    assert(m@ == ".class 파일 읽기 실패 ("@ + f@.0 + "): "@ + io@);
                    assert(files_scan(st0, iv.take(i + 1), method_name@, exv) == Err::<ScanView, Seq<char>>(m@));
                    lemma_scan_error_stays(st0, iv, i + 1, method_name@, exv);
                }
                return Err(m);
            },
            Ok(b) => {
                match parse_jvm_class(b) {
                    Err(e) => {
                        let m1 = concat(&lit(".class 파싱 실패 ("), &chars_of(f.path.as_str()));
                        let m2 = concat(&m1, &lit("): "));
                        let m = string_of(&concat(&m2, &chars_of(e.as_str())));
                        proof {
                            assert(f@.2 == Ok::<Seq<u8>, Seq<char>>(b@));
                            assert(m@ == ".class 파싱 실패 ("@ + f@.0 + "): "@ + e@);
                            assert(files_scan(st0, iv.take(i + 1), method_name@, exv) == Err::<ScanView, Seq<char>>(m@));
                            lemma_scan_error_stays(st0, iv, i + 1, method_name@, exv);
                        }
                        return Err(m);
                    },
                    Ok(c) => {
                        scan_class(&mut acc, &c, method_name, extra_methods, &f.file_name);
                    },
                }
            },
        }
        i += 1;
    }
    assert(iv.take(iv.len() as int) =~= iv);
    let ClassScan { references, queries, logs } = acc;
    let refs = sort_dedup_calls(&references);
    let s1 = concat(&lit("[ANALYZER] 메서드 '"), &chars_of(method_name));
    let s2 = concat(&s1, &lit("' 참조 총 "));
    let s3 = concat(&s2, &decimal_of(refs.len() as u128));
    let s4 = concat(&s3, &lit("건, 쿼리 "));
    let s5 = concat(&s4, &decimal_of(queries.len() as u128));
    let s6 = concat(&s5, &lit("건"));
    let mut logs = logs;
    let ghost before = string_views(logs@);
    logs.push(string_of(&s6));
    assert(string_views(logs@) =~= before.push(s6@));
    let r = ClassAnalysisResult { class_file: class_files[0].path.clone(), references: refs, queries, logs };
    assert(iv[0].0 == class_files@[0].path@);
    Ok(r)
}

/// `analyze_class_with_extra` with no extra method.
pub fn analyze_class(java_file: &str, method_name: &str, class_files: &Vec<ClassFileInput>) -> (r: Result<ClassAnalysisResult, String>)
    ensures
        analysis_view(r) == class_analysis(java_file@, method_name@, Seq::empty(), inputs_view(class_files@)),
{
    let none: Vec<String> = Vec::new();
    assert(string_views(none@) =~= Seq::<Seq<char>>::empty());
    analyze_class_with_extra(java_file, method_name, &none, class_files)
}

// ───────────────────────── which class files ─────────────────────────

/// A class file's path below the classes folder, without its extension,
/// is that of the class itself (case ignored, `/` for `\`).
pub open spec fn same_class_file(stem: Seq<char>, rel: Seq<char>) -> bool {
    lowercase(replace_char(rel, '\\', '/')) == replace_char(lowercase(stem), '\\', '/')
}

/// ... or that of one of its inner or anonymous classes (`Stem$...`).
pub open spec fn class_file_of(stem: Seq<char>, rel: Seq<char>) -> bool {
    same_class_file(stem, rel) || starts_with(
        lowercase(replace_char(rel, '\\', '/')),
        replace_char(lowercase(stem), '\\', '/').push('$'),
    )
}

/// The paths of the class files found that belong to `stem` and are (or
/// are not) the class's own file, in the order found.
pub open spec fn class_paths_where(stem: Seq<char>, found: Seq<(Seq<char>, Seq<char>)>, own: bool) -> Seq<Seq<char>>
    decreases found.len(),
{
    if found.len() == 0 {
        Seq::empty()
    } else {
        let prev = class_paths_where(stem, found.drop_last(), own);
        let f = found.last();
        if class_file_of(stem, f.1) && same_class_file(stem, f.1) == own {
            prev.push(f.0)
        } else {
            prev
        }
    }
}

/// The class files of a class: its own file first, then those of its inner
/// and anonymous classes, each group in path order.
pub open spec fn class_file_order(stem: Seq<char>, found: Seq<(Seq<char>, Seq<char>)>) -> Seq<Seq<char>> {
    sorted_set(class_paths_where(stem, found, true)) + sorted_set(class_paths_where(stem, found, false))
}

pub open spec fn found_view(found: Seq<(String, String)>) -> Seq<(Seq<char>, Seq<char>)> {
    found.map_values(|f: (String, String)| (f.0@, f.1@))
}

/// Picks, among the `.class` files found below the classes folder (each
/// given by its path and its path below that folder without extension),
/// those of the class `stem`, its own file first.
pub fn select_class_files(stem: &str, found: &Vec<(String, String)>) -> (r: Vec<String>)
    ensures
        string_views(r@) == class_file_order(stem@, found_view(found@)),
{
    let s = replace_char_of(&lowercase_of(&chars_of(stem)), '\\', '/');
    let mut sd = s.clone();
    sd.push('$');
    assert(sd@ == s@.push('$'));
    let ghost fv = found_view(found@);
    let mut own: Vec<Vec<char>> = Vec::new();
    let mut inner: Vec<Vec<char>> = Vec::new();
    let mut i: usize = 0;
    assert(fv.take(0) =~= Seq::<(Seq<char>, Seq<char>)>::empty());
    while i < found.len()
        invariant
            i <= found.len(),
            fv == found_view(found@),
            s@ == replace_char(lowercase(stem@), '\\', '/'),
            sd@ == s@.push('$'),
            views(own@) == class_paths_where(stem@, fv.take(i as int), true),
            views(inner@) == class_paths_where(stem@, fv.take(i as int), false),
        decreases found.len() - i,
    {
        let f = &found[i];
        assert(fv.take(i + 1).drop_last() =~= fv.take(i as int));
        assert(fv.take(i + 1).last() == (f.0@, f.1@));
        let rel = lowercase_of(&replace_char_of(&chars_of(f.1.as_str()), '\\', '/'));
        let path = chars_of(f.0.as_str());
        if eq_chars(&rel, &s) {
            let ghost before = views(own@);
            own.push(path);
            assert(views(own@) =~= before.push(f.0@));
        } else if crate::text::starts_with_chars(&rel, &sd) {
            let ghost before = views(inner@);
            inner.push(path);
            assert(views(inner@) =~= before.push(f.0@));
        }
        i += 1;
    }
    assert(fv.take(found@.len() as int) =~= fv);
    let a = crate::order::sort_dedup(&own);
    let b = crate::order::sort_dedup(&inner);
    let mut r: Vec<String> = Vec::new();
    let mut k: usize = 0;
    while k < a.len()
        invariant
            k <= a.len(),
            string_views(r@) == views(a@).take(k as int),
        decreases a.len() - k,
    {
        let ghost before = string_views(r@);
        r.push(string_of(&a[k]));
        assert(string_views(r@) =~= before.push(a@[k as int]@));
        assert(views(a@).take(k + 1) =~= views(a@).take(k as int).push(a@[k as int]@));
        k += 1;
    }
    assert(views(a@).take(a@.len() as int) =~= views(a@));
    let mut k: usize = 0;
    while k < b.len()
        invariant
            k <= b.len(),
            string_views(r@) == views(a@) + views(b@).take(k as int),
        decreases b.len() - k,
    {
        let ghost before = string_views(r@);
        r.push(string_of(&b[k]));
        assert(string_views(r@) =~= before.push(b@[k as int]@));
        assert(views(b@).take(k + 1) =~= views(b@).take(k as int).push(b@[k as int]@));
        k += 1;
    }
    assert(views(b@).take(b@.len() as int) =~= views(b@));
    r
}

// ───────────────────────── where query ids come from ─────────────────────────

/// A value that instructions can hand to a call: `[변수 확인 필요]`, or what
/// one of them loads (a string constant or a static field's label).
pub open spec fn possible_value(ops: Seq<OpView>, v: Seq<char>) -> bool {
    v == UNKNOWN_VALUE@ || exists|k: int| 0 <= k < ops.len() && #[trigger] loaded_value(ops[k]) == Some(v)
}

/// Scanning instructions keeps the queries found before, and the query id
/// of each new query is `[변수 확인 필요]`, a string constant of the
/// instructions, or the label of a static field they load.
pub proof fn law_query_ids_come_from_code(st: ScanView, ops: Seq<OpView>, super_dao: bool)
    ensures
        ops_scan(st, ops, super_dao).1.1.len() >= st.1.len(),
        ops_scan(st, ops, super_dao).1.1.take(st.1.len() as int) == st.1,
        forall|i: int|
            st.1.len() <= i < ops_scan(st, ops, super_dao).1.1.len() ==> possible_value(ops, #[trigger] ops_scan(st, ops, super_dao).1.1[i].2),
        forall|i: int|
            0 <= i < ops_scan(st, ops, super_dao).0.len() ==> possible_value(ops, #[trigger] ops_scan(st, ops, super_dao).0[i]),
    decreases ops.len(),
{
    if ops.len() == 0 {
        assert(st.1.take(st.1.len() as int) =~= st.1);
    } else {
        let prev_ops = ops.drop_last();
        law_query_ids_come_from_code(st, prev_ops, super_dao);
        let prev = ops_scan(st, prev_ops, super_dao);
        let op = ops.last();
        let next = ops_scan(st, ops, super_dao);
        assert(next == op_step(prev, op, super_dao));
        // what held of the shorter sequence holds of the longer one
        assert forall|v: Seq<char>| possible_value(prev_ops, v) implies possible_value(ops, v) by {
            if v != UNKNOWN_VALUE@ {
                let k = choose|k: int| 0 <= k < prev_ops.len() && #[trigger] loaded_value(prev_ops[k]) == Some(v);
                assert(ops[k] == prev_ops[k]);
                assert(loaded_value(ops[k]) == Some(v));
            }
        }
        match op {
            OpView::Invoke(r) => {
                let qid = if prev.0.len() > 0 {
                    prev.0.last()
                } else {
                    UNKNOWN_VALUE@
                };
                if prev.0.len() > 0 {
                    assert(possible_value(prev_ops, prev.0[prev.0.len() - 1]));
                }
                assert(possible_value(ops, qid));
                assert(next.1.1.take(prev.1.1.len() as int) =~= prev.1.1);
                assert(next.1.1.take(st.1.len() as int) =~= prev.1.1.take(st.1.len() as int));
                assert forall|i: int| st.1.len() <= i < next.1.1.len() implies possible_value(ops, #[trigger] next.1.1[i].2) by {
                    if i < prev.1.1.len() {
                        assert(next.1.1[i] == prev.1.1[i]);
                        assert(possible_value(prev_ops, prev.1.1[i].2));
                    }
                }
            },
            _ => {
                match loaded_value(op) {
                    Some(v) => {
                        assert(loaded_value(ops[ops.len() - 1]) == Some(v));
                        assert forall|i: int| 0 <= i < next.0.len() implies possible_value(ops, #[trigger] next.0[i]) by {
                            if i < prev.0.len() {
                                assert(next.0[i] == prev.0[i]);
                                assert(possible_value(prev_ops, prev.0[i]));
                            }
                        }
                    },
                    None => {
                        assert forall|i: int| 0 <= i < next.0.len() implies possible_value(ops, #[trigger] next.0[i]) by {
                            assert(possible_value(prev_ops, prev.0[i]));
                        }
                    },
                }
                assert forall|i: int| st.1.len() <= i < next.1.1.len() implies possible_value(ops, #[trigger] next.1.1[i].2) by {
                    assert(possible_value(prev_ops, prev.1.1[i].2));
                }
            },
        }
    }
}

pub open spec fn possible_in_codes(codes: Seq<Seq<OpView>>, v: Seq<char>) -> bool {
    exists|c: int| 0 <= c < codes.len() && possible_value(#[trigger] codes[c], v)
}

pub open spec fn possible_in_methods(ms: Seq<MethodView>, v: Seq<char>) -> bool {
    exists|m: int| 0 <= m < ms.len() && possible_in_codes(#[trigger] ms[m].1, v)
}

pub open spec fn possible_in_class(c: ClassView, v: Seq<char>) -> bool {
    possible_in_methods(c.1, v)
}

proof fn lemma_codes_query_ids(st: ScanView, codes: Seq<Seq<OpView>>, super_dao: bool)
    ensures
        codes_scan(st, codes, super_dao).1.len() >= st.1.len(),
        codes_scan(st, codes, super_dao).1.take(st.1.len() as int) == st.1,
        forall|i: int|
            st.1.len() <= i < codes_scan(st, codes, super_dao).1.len() ==> possible_in_codes(codes, #[trigger] codes_scan(st, codes, super_dao).1[i].2),
    decreases codes.len(),
{
    if codes.len() == 0 {
        assert(st.1.take(st.1.len() as int) =~= st.1);
    } else {
        let prev_codes = codes.drop_last();
        lemma_codes_query_ids(st, prev_codes, super_dao);
        let mid = codes_scan(st, prev_codes, super_dao);
        law_query_ids_come_from_code(mid, codes.last(), super_dao);
        let next = codes_scan(st, codes, super_dao);
        assert(next == ops_scan(mid, codes.last(), super_dao).1);
        assert(next.1.take(st.1.len() as int) =~= next.1.take(mid.1.len() as int).take(st.1.len() as int));
        assert forall|i: int| st.1.len() <= i < next.1.len() implies possible_in_codes(codes, #[trigger] next.1[i].2) by {
            if i < mid.1.len() {
                assert(next.1[i] == mid.1[i]);
                let c = choose|c: int| 0 <= c < prev_codes.len() && possible_value(#[trigger] prev_codes[c], mid.1[i].2);
                assert(codes[c] == prev_codes[c]);
            } else {
                assert(possible_value(codes[codes.len() - 1], next.1[i].2));
            }
        }
    }
}

proof fn lemma_methods_query_ids(st: ScanView, ms: Seq<MethodView>, method_name: Seq<char>, extras: Seq<Seq<char>>, file_name: Option<Seq<char>>, super_dao: bool)
    ensures
        methods_scan(st, ms, method_name, extras, file_name, super_dao).1.len() >= st.1.len(),
        methods_scan(st, ms, method_name, extras, file_name, super_dao).1.take(st.1.len() as int) == st.1,
        forall|i: int|
            st.1.len() <= i < methods_scan(st, ms, method_name, extras, file_name, super_dao).1.len() ==> possible_in_methods(
                ms,
                #[trigger] methods_scan(st, ms, method_name, extras, file_name, super_dao).1[i].2,
            ),
    decreases ms.len(),
{
    if ms.len() == 0 {
        assert(st.1.take(st.1.len() as int) =~= st.1);
    } else {
        let prev_ms = ms.drop_last();
        lemma_methods_query_ids(st, prev_ms, method_name, extras, file_name, super_dao);
        let mid = methods_scan(st, prev_ms, method_name, extras, file_name, super_dao);
        let m = ms.last();
        let next = methods_scan(st, ms, method_name, extras, file_name, super_dao);
        assert(next == method_step(mid, m, method_name, extras, file_name, super_dao));
        let logged: ScanView = (mid.0, mid.1, mid.2.push(method_log(m.0, file_name)));
        lemma_codes_query_ids(logged, m.1, super_dao);
        assert(next.1.take(st.1.len() as int) =~= next.1.take(mid.1.len() as int).take(st.1.len() as int));
        assert forall|i: int| st.1.len() <= i < next.1.len() implies possible_in_methods(ms, #[trigger] next.1[i].2) by {
            if i < mid.1.len() {
                assert(next.1[i] == mid.1[i]);
                let k = choose|k: int| 0 <= k < prev_ms.len() && possible_in_codes(#[trigger] prev_ms[k].1, mid.1[i].2);
                assert(ms[k] == prev_ms[k]);
            } else {
                assert(possible_in_codes(ms[ms.len() - 1].1, next.1[i].2));
            }
        }
    }
}

/// The scan of a parsed class keeps the queries found before; the query id
/// of each new query is `[변수 확인 필요]`, a string constant of one of the
/// class's methods, or the label of a static field one of them loads.
pub proof fn law_class_query_ids(st: ScanView, c: ClassView, method_name: Seq<char>, extras: Seq<Seq<char>>, file_name: Option<Seq<char>>)
    ensures
        class_scan(st, c, method_name, extras, file_name).1.len() >= st.1.len(),
        class_scan(st, c, method_name, extras, file_name).1.take(st.1.len() as int) == st.1,
        forall|i: int|
            st.1.len() <= i < class_scan(st, c, method_name, extras, file_name).1.len() ==> possible_in_class(
                c,
                #[trigger] class_scan(st, c, method_name, extras, file_name).1[i].2,
            ),
{
    lemma_methods_query_ids(st, c.1, method_name, extras, file_name, super_is_dao(c.0));
    let next = class_scan(st, c, method_name, extras, file_name);
    assert forall|i: int| st.1.len() <= i < next.1.len() implies possible_in_class(c, #[trigger] next.1[i].2) by {
        assert(possible_in_methods(c.1, next.1[i].2));
    }
}

// ───────────────────────── sorting the calls ─────────────────────────

impl MethodCall {
    pub fn duplicate(&self) -> (r: MethodCall)
        ensures
            r@ == self@,
    {
        MethodCall { class_name: self.class_name.clone(), method_name: self.method_name.clone() }
    }
}

fn call_less(a: &MethodCall, b: &MethodCall) -> (r: bool)
    ensures
        r == pair_lt(a@, b@),
{
    let ac = chars_of(a.class_name.as_str());
    let bc = chars_of(b.class_name.as_str());
    if lex_less(&ac, &bc) {
        true
    } else if eq_chars(&ac, &bc) {
        lex_less(&chars_of(a.method_name.as_str()), &chars_of(b.method_name.as_str()))
    } else {
        false
    }
}

fn call_eq(a: &MethodCall, b: &MethodCall) -> (r: bool)
    ensures
        r == (a@ == b@),
{
    eq_chars(&chars_of(a.class_name.as_str()), &chars_of(b.class_name.as_str())) && eq_chars(
        &chars_of(a.method_name.as_str()),
        &chars_of(b.method_name.as_str()),
    )
}

/// Sorts calls (by class, then method) and drops repeats.
pub fn sort_dedup_calls(v: &Vec<MethodCall>) -> (r: Vec<MethodCall>)
    ensures
        sorted_pairs_of(calls_view(r@), calls_view(v@)),
        calls_view(r@) == sorted_pair_set(calls_view(v@)),
{
    let mut r: Vec<MethodCall> = Vec::new();
    let mut i: usize = 0;
    while i < v.len()
        invariant
            i <= v.len(),
            sorted_pairs_of(calls_view(r@), calls_view(v@).take(i as int)),
        decreases v.len() - i,
    {
        let x = &v[i];
        let ghost old_r = calls_view(r@);
        // position of the first element that is not below `x`
        let mut k: usize = 0;
        while k < r.len() && call_less(&r[k], x)
            invariant
                k <= r.len(),
                calls_view(r@) == old_r,
                forall|j: int| 0 <= j < k ==> pair_lt(#[trigger] old_r[j], x@),
            decreases r.len() - k,
        {
            k += 1;
        }
        let dup = k < r.len() && call_eq(&r[k], x);
        proof {
            assert(calls_view(v@).take(i + 1) =~= calls_view(v@).take(i as int).push(x@));
        }
        if !dup {
            proof {
                if k < r.len() {
                    lemma_pair_total(old_r[k as int], x@);
                }
            }
            r.insert(k, x.duplicate());
            proof {
                let nr = calls_view(r@);
                assert(nr =~= old_r.insert(k as int, x@));
                assert forall|a: int, b: int| 0 <= a < b < nr.len() implies pair_lt(
                    #[trigger] nr[a],
                    #[trigger] nr[b],
                ) by {
                    if b < k {
                    } else if b == k {
                    } else if a < k {
                        // a < k < b: old_r[a] < x < old_r[b - 1]
                        if k < old_r.len() {
                            lemma_pair_transitive(old_r[a], x@, old_r[k as int]);
                            if b - 1 > k {
                                lemma_pair_transitive(old_r[a], old_r[k as int], old_r[b - 1]);
                            }
                        }
                    } else if a == k {
                        if b - 1 > k {
                            lemma_pair_transitive(x@, old_r[k as int], old_r[b - 1]);
                        }
                    } else {
                    }
                }
                assert forall|y: (Seq<char>, Seq<char>)| nr.contains(y) <==> calls_view(v@).take(i + 1).contains(
                    y,
                ) by {
                    if nr.contains(y) {
                        let j = choose|j: int| 0 <= j < nr.len() && nr[j] == y;
                        if j < k {
                            assert(old_r.contains(old_r[j]));
                        } else if j > k {
                            assert(old_r.contains(old_r[j - 1]));
                        } else {
                            assert(calls_view(v@).take(i + 1)[i as int] == x@);
                        }
                    }
                    if calls_view(v@).take(i + 1).contains(y) {
                        let j = choose|j: int| 0 <= j < i + 1 && #[trigger] calls_view(v@).take(i + 1)[j] == y;
                        if j < i {
                            assert(calls_view(v@).take(i as int)[j] == y);
                            assert(old_r.contains(y));
                            let m = choose|m: int| 0 <= m < old_r.len() && old_r[m] == y;
                            if m < k {
                                assert(nr[m] == y);
                            } else {
                                assert(nr[m + 1] == y);
                            }
                        } else {
                            assert(nr[k as int] == x@);
                        }
                    }
                }
            }
        } else {
            proof {
                let nr = calls_view(r@);
                assert forall|y: (Seq<char>, Seq<char>)| nr.contains(y) <==> calls_view(v@).take(i + 1).contains(
                    y,
                ) by {
                    if nr.contains(y) {
                        let j = choose|j: int| 0 <= j < nr.len() && nr[j] == y;
                        assert(calls_view(v@).take(i as int).contains(y));
                        let m = choose|m: int| 0 <= m < i && #[trigger] calls_view(v@).take(i as int)[m] == y;
                        assert(calls_view(v@).take(i + 1)[m] == y);
                    }
                    if calls_view(v@).take(i + 1).contains(y) {
                        let j = choose|j: int| 0 <= j < i + 1 && #[trigger] calls_view(v@).take(i + 1)[j] == y;
                        if j < i {
                            assert(calls_view(v@).take(i as int)[j] == y);
                        } else {
                            assert(nr[k as int] == x@);
                        }
                    }
                }
            }
        }
        i += 1;
    }
    assert(calls_view(v@).take(v@.len() as int) =~= calls_view(v@));
    proof {
        lemma_sorted_pair_set(calls_view(r@), calls_view(v@));
    }
    r
}


} // verus!
