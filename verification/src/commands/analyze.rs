//! The analysis of result rows: a combo row from its parameter; an action
//! row by locating the Java handler of its URL and following the calls from
//! that handler through the compiled classes to the DAO queries.
//!
//! Locating a service in the file system, finding Java sources and reading
//! class files are the caller's work: the decisions here say which of them
//! comes next, and take back what it gave.
use vstd::prelude::*;

use crate::models::{
    AnalysisResult, AnalysisStatus, AnalysisType, AnalysisView, ExtractedAction, ExtractedCombo,
    QueryUsage, usages_view,
};
use crate::parser::class_analyzer::{
    analysis_view, ClassAnalysisResult, FoundQuery, MethodCall, ResultView, calls_view,
    queries_view,
};
use crate::parser::java_locator::{
    debug_location, location_debug, is_system_prefixed_service_url, url_path, JavaServiceLocation,
};
use crate::parser::spring_controller_index::{
    is_do_style, is_spring_do_style_url, locs_view, lookup_of, LookupView, SpringLookupError,
    SpringMappingIndex,
};
use crate::text::{
    chars_of, concat, contains_chars, contains_sub, lit, lowercase, opt_str, replace_char,
    replace_char_of, starts_with, starts_with_chars, string_of, string_views, trim, trim_chars,
    trim_start_char, trim_start_char_of, lemma_drop_front_shape, lemma_trim_ends, lemma_trim_fixed,
};

verus! {

// ───────────────────────── the Diablo root ─────────────────────────

/// A service URL resolved under the Diablo root: trimmed, with `Diablo/`
/// in front (after its leading slashes) unless it already starts so.
pub open spec fn diablo_url(u: Seq<char>) -> Seq<char> {
    let t = trim(u);
    if starts_with(t, "Diablo/"@) {
        t
    } else {
        "Diablo/"@ + trim_start_char(t, '/')
    }
}

/// Puts `Diablo/` in front of a service URL resolved under the Diablo root.
pub fn service_url_with_diablo_prefix(url: Option<String>) -> (r: Option<String>)
    ensures
        opt_str(r) == (match url {
            Some(u) => Some(diablo_url(u@)),
            None => None,
        }),
{
    match url {
        None => None,
        Some(u) => {
            let t = trim_chars(&chars_of(u.as_str()));
            if starts_with_chars(&t, &lit("Diablo/")) {
                Some(string_of(&t))
            } else {
                Some(string_of(&concat(&lit("Diablo/"), &trim_start_char_of(&t, '/'))))
            }
        },
    }
}

/// The Diablo root given by the user: trimmed, `None` when empty.
pub fn normalize_diablo_root(root: Option<String>) -> (r: Option<String>)
    ensures
        opt_str(r) == (match root {
            Some(s) => if trim(s@).len() > 0 {
                Some(trim(s@))
            } else {
                None
            },
            None => None,
        }),
{
    match root {
        None => None,
        Some(s) => {
            let t = trim_chars(&chars_of(s.as_str()));
            if t.len() > 0 {
                Some(string_of(&t))
            } else {
                None
            }
        },
    }
}

/// Putting the `Diablo/` prefix on a URL that already went through it
/// changes nothing.
pub proof fn law_diablo_prefix_once(u: Seq<char>)
    ensures
        diablo_url(diablo_url(u)) == diablo_url(u),
{
    reveal_strlit("Diablo/");
    let t = trim(u);
    lemma_trim_ends(u);
    if starts_with(t, "Diablo/"@) {
        lemma_trim_fixed(t);
    } else {
        let x = trim_start_char(t, '/');
        lemma_drop_front_shape(t, crate::text::eq_pred('/'));
        let y = "Diablo/"@ + x;
        assert(y[0] == 'D');
        if x.len() > 0 {
            assert(x.last() == t.last());
            assert(y.last() == x.last());
        } else {
            assert(y.last() == '/');
        }
        lemma_trim_fixed(y);
        assert(y.take(7) =~= "Diablo/"@);
    }
}

/// An action row is analyzed again under the Diablo root when there is
/// one and the first analysis found no Java file.
pub fn needs_diablo_retry(r: &AnalysisResult, has_diablo_root: bool) -> (b: bool)
    ensures
        b == (has_diablo_root && r.analysis_type == AnalysisType::ActionSubmit && r.java_file is None),
{
    has_diablo_root && r.analysis_type == AnalysisType::ActionSubmit && r.java_file.is_none()
}

/// The row of the analysis under the Diablo root: when it found the Java
/// file, its service URL gets the `Diablo/` prefix.
pub fn with_diablo_url(r: AnalysisResult) -> (out: AnalysisResult)
    ensures
        out@ == (if r.java_file is Some {
            AnalysisView {
                service_url: match r@.service_url {
                    Some(u) => Some(diablo_url(u)),
                    None => None,
                },
                ..r@
            }
        } else {
            r@
        }),
{
    let mut r = r;
    if r.java_file.is_some() {
        let u = r.service_url;
        r.service_url = service_url_with_diablo_prefix(u);
    }
    r
}

/// The action row that stands for a screen file that could not be read.
pub fn xfdl_error_action(xfdl_path: &str, xfdl_name: &str, e: &str) -> (a: ExtractedAction)
    ensures
        a@ == (xfdl_name@ + ".ERROR"@, "ERROR"@, xfdl_path@, xfdl_name@, None::<Seq<char>>, false, Some(e@)),
{
    ExtractedAction {
        result_id: string_of(&concat(&chars_of(xfdl_name), &lit(".ERROR"))),
        action_id: string_of(&lit("ERROR")),
        xfdl_path: string_of(&chars_of(xfdl_path)),
        xfdl_name: string_of(&chars_of(xfdl_name)),
        url: None,
        is_manual: false,
        xml_parse_err: Some(string_of(&chars_of(e))),
    }
}

// ───────────────────────── combo rows ─────────────────────────

/// The row of a combo parameter: a common code is shown as such; any
/// other parameter is the query it names.
pub open spec fn combo_result(c: (Seq<char>, Seq<char>, Seq<char>, Seq<char>, bool)) -> AnalysisView {
    AnalysisView {
        result_id: c.0,
        action_id: "combo"@,
        xfdl_path: c.1,
        xfdl_name: c.2,
        service_url: None,
        status: AnalysisStatus::Found,
        java_file: None,
        class_file: None,
        method_name: None,
        method_line: None,
        queries: if c.4 {
            Seq::empty()
        } else {
            seq![(Seq::<Seq<char>>::empty(), c.3)]
        },
        error_msg: None,
        debug_logs: Seq::empty(),
        analysis_type: AnalysisType::Combo,
        combo_param: if c.4 {
            Some(c.3)
        } else {
            None
        },
        is_common_code: Some(c.4),
    }
}

/// The analysis of one combo parameter (no Java is read).
pub fn analyze_single_combo(combo: &ExtractedCombo) -> (r: AnalysisResult)
    ensures
        r@ == combo_result(combo@),
{
    let mut queries: Vec<QueryUsage> = Vec::new();
    if !combo.is_common_code {
        let q = QueryUsage { call_path: Vec::new(), query_id: combo.param.clone() };
        assert(q@.0 =~= Seq::<Seq<char>>::empty());
        queries.push(q);
    }
    let r = AnalysisResult {
        result_id: combo.result_id.clone(),
        action_id: string_of(&lit("combo")),
        xfdl_path: combo.xfdl_path.clone(),
        xfdl_name: combo.xfdl_name.clone(),
        service_url: None,
        status: AnalysisStatus::Found,
        java_file: None,
        class_file: None,
        method_name: None,
        method_line: None,
        queries,
        error_msg: None,
        debug_logs: Vec::new(),
        analysis_type: AnalysisType::Combo,
        combo_param: if combo.is_common_code {
            Some(combo.param.clone())
        } else {
            None
        },
        is_common_code: Some(combo.is_common_code),
    };
    assert(r@.queries =~= combo_result(combo@).queries);
    assert(r@.debug_logs =~= Seq::<Seq<char>>::empty());
    r
}

// ───────────────────────── action rows: locating the handler ─────────────────────────

pub const WARN_PREFIX: &'static str = "⚠️ [경고] XFDL 부분 파싱 중 오류 발생 (이휴 과정 진행됨):\n";

pub const MANUAL_MSG: &'static str = "actionSubmit 첫 번째 인자가 변수입니다. 수동 확인이 필요합니다.";

pub const NO_URL_MSG: &'static str = "dsAction Dataset에서 URL을 찾지 못했습니다.";

pub const SPRING_NOT_FOUND_LOG: &'static str = "Spring: 문자열 리터럴 path/value로 매핑된 .do/.dox 핸들러를 찾지 못했습니다.";

pub const SPRING_NOT_FOUND_MSG: &'static str = "@Controller/@RestController의 @RequestMapping 등에서 해당 URL 문자열을 찾지 못했습니다.";

pub const SPRING_AMBIGUOUS_LOG: &'static str = "Spring: 동일 URL에 복수 핸들러 후보 — ";

pub const SPRING_AMBIGUOUS_MSG: &'static str = "동일 URL에 매핑된 핸들러가 여러 개입니다: ";

pub const SYSTEM_FOUND_LOG: &'static str = "common/service 휴리스틱: ";

pub const SYSTEM_FAILED_LOG: &'static str = "common/service 휴리스틱 실패, typedef 경로 시도: ";

/// The part of a locator error that means the URL's prefix is unknown.
pub const TYPEDEF_MISSING: &'static str = "default_typedef.xml에서 찾을 수 없음";

pub type ActionView = (Seq<char>, Seq<char>, Seq<char>, Seq<char>, Option<Seq<char>>, bool, Option<Seq<char>>);

pub type LocView = (Seq<char>, Seq<char>, u32);

/// A row that ends before any Java is read.
pub open spec fn early_row(a: ActionView, url: Option<Seq<char>>, status: AnalysisStatus, msg: Seq<char>, logs: Seq<Seq<char>>) -> AnalysisView {
    AnalysisView {
        result_id: a.0,
        action_id: a.1,
        xfdl_path: a.2,
        xfdl_name: a.3,
        service_url: url,
        status: status,
        java_file: None,
        class_file: None,
        method_name: None,
        method_line: None,
        queries: Seq::empty(),
        error_msg: Some(msg),
        debug_logs: logs,
        analysis_type: AnalysisType::ActionSubmit,
        combo_param: None,
        is_common_code: None,
    }
}

fn early_result(a: &ExtractedAction, url: Option<String>, status: AnalysisStatus, msg: String, logs: Vec<String>) -> (r: AnalysisResult)
    ensures
        r@ == early_row(a@, opt_str(url), status, msg@, string_views(logs@)),
{
    let r = AnalysisResult {
        result_id: a.result_id.clone(),
        action_id: a.action_id.clone(),
        xfdl_path: a.xfdl_path.clone(),
        xfdl_name: a.xfdl_name.clone(),
        service_url: url,
        status,
        java_file: None,
        class_file: None,
        method_name: None,
        method_line: None,
        queries: Vec::new(),
        error_msg: Some(msg),
        debug_logs: logs,
        analysis_type: AnalysisType::ActionSubmit,
        combo_param: None,
        is_common_code: None,
    };
    assert(r@.queries =~= Seq::<(Seq<Seq<char>>, Seq<char>)>::empty());
    r
}

/// The derived `Debug` of a list of locations: `[a, b, ...]`.
pub open spec fn locations_debug(v: Seq<LocView>) -> Seq<char> {
    "["@ + debug_items(v) + "]"@
}

pub open spec fn debug_items(v: Seq<LocView>) -> Seq<char>
    decreases v.len(),
{
    if v.len() == 0 {
        Seq::empty()
    } else if v.len() == 1 {
        location_debug(v[0])
    } else {
        debug_items(v.drop_last()) + ", "@ + location_debug(v.last())
    }
}

fn debug_locations(v: &Vec<JavaServiceLocation>) -> (r: String)
    ensures
        r@ == locations_debug(locs_view(v@)),
{
    let ghost lv = locs_view(v@);
    let mut items: Vec<char> = Vec::new();
    let mut i: usize = 0;
    assert(lv.take(0) =~= Seq::<LocView>::empty());
    while i < v.len()
        invariant
            i <= v.len(),
            lv == locs_view(v@),
            items@ == debug_items(lv.take(i as int)),
        decreases v.len() - i,
    {
        assert(lv.take(i + 1).drop_last() =~= lv.take(i as int));
        assert(lv.take(i + 1).last() == v@[i as int]@);
        let d = chars_of(debug_location(&v[i]).as_str());
        if i == 0 {
            items = d;
        } else {
            items = concat(&concat(&items, &lit(", ")), &d);
        }
        i += 1;
    }
    assert(lv.take(v@.len() as int) =~= lv);
    string_of(&concat(&concat(&lit("["), &items), &lit("]")))
}

/// Where the analysis of an action row stands before the classes are read.
pub enum ActionBegin {
    /// The row is complete.
    Done(AnalysisResult),
    /// The service is to be located: through `common/service` first when
    /// `system`, else through the typedef map.
    Locate { system: bool, url: String, logs: Vec<String> },
    /// The handler is known.
    Located { url: String, logs: Vec<String>, location: JavaServiceLocation },
}

pub enum BeginView {
    Done(AnalysisView),
    Locate(bool, Seq<char>, Seq<Seq<char>>),
    Located(Seq<char>, Seq<Seq<char>>, LocView),
}

impl View for ActionBegin {
    type V = BeginView;

    open spec fn view(&self) -> BeginView {
        match self {
            ActionBegin::Done(r) => BeginView::Done(r@),
            ActionBegin::Locate { system, url, logs } => BeginView::Locate(*system, url@, string_views(logs@)),
            ActionBegin::Located { url, logs, location } => BeginView::Located(url@, string_views(logs@), location@),
        }
    }
}

pub open spec fn system_prefixed(url: Seq<char>) -> bool {
    match url_path(url) {
        Some(p) => starts_with(lowercase(p), "/system/"@),
        None => false,
    }
}

pub open spec fn first_logs(a: ActionView) -> Seq<Seq<char>> {
    match a.6 {
        Some(e) => seq![WARN_PREFIX@ + e],
        None => Seq::empty(),
    }
}

/// The first decisions on an action row: a variable action id needs a
/// person; a missing URL is not found; a `.do` / `.dox` URL is looked up in
/// the Spring index; any other URL is to be located in the file system
/// (through `common/service` first when the heuristic is on and the URL
/// starts with `/system/`).
pub open spec fn begin_of(a: ActionView, index: Map<Seq<char>, Seq<LocView>>, heuristic: bool) -> BeginView {
    let logs0 = first_logs(a);
    if a.5 {
        BeginView::Done(early_row(a, a.4, AnalysisStatus::ManualCheck, MANUAL_MSG@, logs0))
    } else {
        match a.4 {
            None => BeginView::Done(early_row(a, None, AnalysisStatus::NotFound, NO_URL_MSG@, logs0)),
            Some(url) => {
                let logs1 = logs0.push("URL: "@ + url);
                if is_do_style(url) {
                    match lookup_of(index, url) {
                        LookupView::Found(loc) => BeginView::Located(url, logs1, loc),
                        LookupView::NotFound => BeginView::Done(
                            early_row(a, Some(url), AnalysisStatus::ManualCheck, SPRING_NOT_FOUND_MSG@, logs1.push(SPRING_NOT_FOUND_LOG@)),
                        ),
                        LookupView::Ambiguous(c) => BeginView::Done(
                            early_row(
                                a,
                                Some(url),
                                AnalysisStatus::ManualCheck,
                                SPRING_AMBIGUOUS_MSG@ + locations_debug(c),
                                logs1.push(SPRING_AMBIGUOUS_LOG@ + locations_debug(c)),
                            ),
                        ),
                    }
                } else {
                    BeginView::Locate(heuristic && system_prefixed(url), url, logs1)
                }
            },
        }
    }
}

/// Starts the analysis of an action row.
pub fn begin_action(action: &ExtractedAction, spring_index: &SpringMappingIndex, use_system_common_heuristic: bool) -> (r: ActionBegin)
    ensures
        r@ == begin_of(action@, spring_index.view(), use_system_common_heuristic),
{
    let mut logs: Vec<String> = Vec::new();
    match &action.xml_parse_err {
        Some(e) => {
            logs.push(string_of(&concat(&lit(WARN_PREFIX), &chars_of(e.as_str()))));
        },
        None => {},
    }
    assert(string_views(logs@) =~= first_logs(action@));
    if action.is_manual {
        let url = match &action.url {
            Some(u) => Some(u.clone()),
            None => None,
        };
        return ActionBegin::Done(early_result(action, url, AnalysisStatus::ManualCheck, string_of(&lit(MANUAL_MSG)), logs));
    }
    let url = match &action.url {
        None => {
            return ActionBegin::Done(early_result(action, None, AnalysisStatus::NotFound, string_of(&lit(NO_URL_MSG)), logs));
        },
        Some(u) => u.clone(),
    };
    let ghost logs0 = string_views(logs@);
    logs.push(string_of(&concat(&lit("URL: "), &chars_of(url.as_str()))));
    assert(string_views(logs@) =~= logs0.push("URL: "@ + url@));
    if is_spring_do_style_url(url.as_str()) {
        match spring_index.lookup(url.as_str()) {
            Ok(loc) => ActionBegin::Located { url, logs, location: loc },
            Err(SpringLookupError::NotFound) => {
                let ghost l1 = string_views(logs@);
                logs.push(string_of(&lit(SPRING_NOT_FOUND_LOG)));
                assert(string_views(logs@) =~= l1.push(SPRING_NOT_FOUND_LOG@));
                ActionBegin::Done(early_result(action, Some(url), AnalysisStatus::ManualCheck, string_of(&lit(SPRING_NOT_FOUND_MSG)), logs))
            },
            Err(SpringLookupError::Ambiguous(c)) => {
                let d = chars_of(debug_locations(&c).as_str());
                let ghost l1 = string_views(logs@);
                logs.push(string_of(&concat(&lit(SPRING_AMBIGUOUS_LOG), &d)));
                assert(string_views(logs@) =~= l1.push(SPRING_AMBIGUOUS_LOG@ + d@));
                let msg = string_of(&concat(&lit(SPRING_AMBIGUOUS_MSG), &d));
                ActionBegin::Done(early_result(action, Some(url), AnalysisStatus::ManualCheck, msg, logs))
            },
        }
    } else {
        let system = use_system_common_heuristic && is_system_prefixed_service_url(url.as_str());
        ActionBegin::Locate { system, url, logs }
    }
}

pub open spec fn located_view(r: Result<JavaServiceLocation, String>) -> Result<LocView, Seq<char>> {
    match r {
        Ok(l) => Ok(l@),
        Err(e) => Err(e@),
    }
}

/// After the `common/service` search: on success the handler is known; on
/// failure the typedef map is tried.
pub open spec fn after_system_of(url: Seq<char>, logs: Seq<Seq<char>>, r: Result<LocView, Seq<char>>) -> BeginView {
    match r {
        Ok(loc) => BeginView::Located(url, logs.push(SYSTEM_FOUND_LOG@ + location_debug(loc)), loc),
        Err(e) => BeginView::Locate(false, url, logs.push(SYSTEM_FAILED_LOG@ + e)),
    }
}

/// After the typedef search: on success the handler is known; a failure
/// ends the row, for a person to check when the prefix is unknown.
pub open spec fn after_typedef_of(a: ActionView, url: Seq<char>, logs: Seq<Seq<char>>, r: Result<LocView, Seq<char>>) -> BeginView {
    match r {
        Ok(loc) => BeginView::Located(url, logs, loc),
        Err(e) => BeginView::Done(
            early_row(
                a,
                Some(url),
                if contains_sub(e, TYPEDEF_MISSING@) {
                    AnalysisStatus::ManualCheck
                } else {
                    AnalysisStatus::Error
                },
                e,
                logs,
            ),
        ),
    }
}

/// Takes the outcome of the `common/service` search.
pub fn after_system_locate(url: String, logs: Vec<String>, located: Result<JavaServiceLocation, String>) -> (r: ActionBegin)
    ensures
        r@ == after_system_of(url@, string_views(logs@), located_view(located)),
{
    let mut logs = logs;
    let ghost l0 = string_views(logs@);
    match located {
        Ok(loc) => {
            let d = chars_of(debug_location(&loc).as_str());
            logs.push(string_of(&concat(&lit(SYSTEM_FOUND_LOG), &d)));
            assert(string_views(logs@) =~= l0.push(SYSTEM_FOUND_LOG@ + d@));
            ActionBegin::Located { url, logs, location: loc }
        },
        Err(e) => {
            logs.push(string_of(&concat(&lit(SYSTEM_FAILED_LOG), &chars_of(e.as_str()))));
            assert(string_views(logs@) =~= l0.push(SYSTEM_FAILED_LOG@ + e@));
            ActionBegin::Locate { system: false, url, logs }
        },
    }
}

/// Takes the outcome of the typedef search.
pub fn after_typedef_locate(action: &ExtractedAction, url: String, logs: Vec<String>, located: Result<JavaServiceLocation, String>) -> (r: ActionBegin)
    ensures
        r@ == after_typedef_of(action@, url@, string_views(logs@), located_view(located)),
{
    match located {
        Ok(loc) => ActionBegin::Located { url, logs, location: loc },
        Err(e) => {
            let status = if contains_chars(&chars_of(e.as_str()), &lit(TYPEDEF_MISSING)) {
                AnalysisStatus::ManualCheck
            } else {
                AnalysisStatus::Error
            };
            ActionBegin::Done(early_result(action, Some(url), status, e, logs))
        },
    }
}

// ───────────────────────── action rows: following the calls ─────────────────────────

/// The package prefix of the project's own classes, the only ones followed.
pub const APP_PACKAGE: &'static str = "com.shi.";

pub const FIRST_FAILED_LOG: &'static str = "[ANALYZE] class 분석 실패: ";

/// The part of `s` after its last `c` (all of `s` when there is none).
pub open spec fn last_segment(s: Seq<char>, c: char) -> Seq<char>
    decreases s.len(),
{
    if s.len() == 0 {
        s
    } else if s.last() == c {
        Seq::empty()
    } else {
        last_segment(s.drop_last(), c).push(s.last())
    }
}

fn last_segment_of(s: &Vec<char>, c: char) -> (r: Vec<char>)
    ensures
        r@ == last_segment(s@, c),
{
    let mut r: Vec<char> = Vec::new();
    let mut i: usize = 0;
    assert(s@.take(0) =~= Seq::<char>::empty());
    while i < s.len()
        invariant
            i <= s.len(),
            r@ == last_segment(s@.take(i as int), c),
        decreases s.len() - i,
    {
        assert(s@.take(i + 1).drop_last() =~= s@.take(i as int));
        if s[i] == c {
            r = Vec::new();
        } else {
            r.push(s[i]);
        }
        i += 1;
    }
    assert(s@.take(s@.len() as int) =~= s@);
    r
}

/// The query rows of an analyzed method: its call path, then the DAO
/// (simple class name) and the DAO method.
pub open spec fn usages_of(path: Seq<Seq<char>>, qs: Seq<(Seq<char>, Seq<char>, Seq<char>)>) -> Seq<(Seq<Seq<char>>, Seq<char>)> {
    qs.map_values(|q: (Seq<char>, Seq<char>, Seq<char>)| (path.push(last_segment(q.0, '.') + "."@ + q.1), q.2))
}

/// The Java source of a class, below the source root.
pub open spec fn source_of(class_name: Seq<char>) -> Seq<char> {
    replace_char(class_name, '.', '/') + ".java"@
}

/// A method whose calls are being followed: its calls, how many have been
/// looked at, and the call path that leads to it (itself included).
pub struct FrameView {
    pub refs: Seq<(Seq<char>, Seq<char>)>,
    pub next: int,
    pub path: Seq<Seq<char>>,
}

/// What the exploration waits for.
pub enum WaitView {
    /// The analysis of the handler's class.
    First(Seq<char>, Seq<char>),
    /// Whether the source of a class exists (its path below the source
    /// root; the method called).
    Source(Seq<char>, Seq<char>),
    /// The analysis of a called class (file, method, caller's path).
    Analysis(Seq<char>, Seq<char>, Seq<Seq<char>>),
    Finished,
}

pub struct ExploreView {
    pub class_file: Option<Seq<char>>,
    pub queries: Seq<(Seq<Seq<char>>, Seq<char>)>,
    pub logs: Seq<Seq<char>>,
    /// `file#method` of every method analyzed or being analyzed.
    pub visited: Seq<Seq<char>>,
    pub frames: Seq<FrameView>,
    pub wait: WaitView,
}

pub open spec fn call_id(file: Seq<char>, method: Seq<char>) -> Seq<char> {
    file + "#"@ + method
}

/// Calls not yet looked at, plus one for each method being followed.
pub open spec fn remaining(fs: Seq<FrameView>) -> nat
    decreases fs.len(),
{
    if fs.len() == 0 {
        0
    } else {
        remaining(fs.drop_last()) + 1 + (if fs.last().next < fs.last().refs.len() {
            (fs.last().refs.len() - fs.last().next) as nat
        } else {
            0
        })
    }
}

pub open spec fn with_frames(st: ExploreView, fs: Seq<FrameView>, w: WaitView) -> ExploreView {
    ExploreView { class_file: st.class_file, queries: st.queries, logs: st.logs, visited: st.visited, frames: fs, wait: w }
}

/// Looks for the next call of one of the project's own classes, depth
/// first: the newest method's calls in order, then back to its caller.
pub open spec fn advance(st: ExploreView) -> ExploreView
    decreases remaining(st.frames),
{
    if st.frames.len() == 0 {
        with_frames(st, st.frames, WaitView::Finished)
    } else {
        let top = st.frames.last();
        if top.next >= top.refs.len() {
            advance(with_frames(st, st.frames.drop_last(), st.wait))
        } else {
            let r = top.refs[top.next];
            let fs = st.frames.drop_last().push(FrameView { refs: top.refs, next: top.next + 1, path: top.path });
            proof {
                assert(fs.drop_last() =~= st.frames.drop_last());
            }
            if starts_with(r.0, APP_PACKAGE@) {
                with_frames(st, fs, WaitView::Source(source_of(r.0), r.1))
            } else {
                advance(with_frames(st, fs, st.wait))
            }
        }
    }
}

/// The exploration of a located handler: its class is analyzed first.
pub open spec fn explore_start(file: Seq<char>, method: Seq<char>) -> ExploreView {
    ExploreView {
        class_file: None,
        queries: Seq::empty(),
        logs: Seq::empty(),
        visited: seq![call_id(file, method)],
        frames: Seq::empty(),
        wait: WaitView::First(file, method),
    }
}

/// What `Path::new(p).file_stem()` gives, as text (empty when there is none).
pub uninterp spec fn file_stem(p: Seq<char>) -> Seq<char>;

/// Wraps `Path::file_stem`; the result is named by `file_stem`.
#[verifier::external_body]
fn path_file_stem(p: &str) -> (r: String)
    ensures
        r@ == file_stem(p@),
{
    match std::path::Path::new(p).file_stem() {
        Some(s) => s.to_string_lossy().to_string(),
        None => String::new(),
    }
}

/// The stem of the Java file whose class analysis is waited for.
pub open spec fn wait_stem(w: WaitView) -> Seq<char> {
    match w {
        WaitView::First(f, _) => file_stem(f),
        WaitView::Analysis(f, _, _) => file_stem(f),
        _ => Seq::empty(),
    }
}

/// A class analysis came back (`stem` is the file stem of the analyzed
/// Java file): its logs and queries are kept and its calls followed.
pub open spec fn on_analyzed(st: ExploreView, res: Result<ResultView, Seq<char>>, stem: Seq<char>) -> ExploreView {
    match st.wait {
        WaitView::First(f, m) => match res {
            Ok(r) => {
                let path = seq![stem + "."@ + m];
                advance(
                    ExploreView {
                        class_file: Some(r.0),
                        queries: st.queries + usages_of(path, r.2),
                        logs: st.logs + r.3,
                        visited: st.visited,
                        frames: st.frames.push(FrameView { refs: r.1, next: 0, path: path }),
                        wait: WaitView::Finished,
                    },
                )
            },
            Err(e) => ExploreView {
                class_file: st.class_file,
                queries: st.queries,
                logs: st.logs.push(FIRST_FAILED_LOG@ + e),
                visited: st.visited,
                frames: st.frames,
                wait: WaitView::Finished,
            },
        },
        WaitView::Analysis(f, m, caller) => match res {
            Ok(r) => {
                let path = caller.push(stem + "."@ + m);
                advance(
                    ExploreView {
                        class_file: st.class_file,
                        queries: st.queries + usages_of(path, r.2),
                        logs: st.logs + r.3,
                        visited: st.visited,
                        frames: st.frames.push(FrameView { refs: r.1, next: 0, path: path }),
                        wait: WaitView::Finished,
                    },
                )
            },
            Err(e) => advance(
                ExploreView {
                    class_file: st.class_file,
                    queries: st.queries,
                    logs: st.logs.push("[ANALYZE] 내부 class 분석 실패("@ + f + "): "@ + e),
                    visited: st.visited,
                    frames: st.frames,
                    wait: WaitView::Finished,
                },
            ),
        },
        _ => st,
    }
}

/// The search for a called class's source came back: a source found and
/// not yet visited is analyzed next.
pub open spec fn on_source(st: ExploreView, found: Option<Seq<char>>) -> ExploreView {
    match st.wait {
        WaitView::Source(rel, m) => match found {
            None => advance(st),
            Some(file) => if st.visited.contains(call_id(file, m)) || st.frames.len() == 0 {
                advance(st)
            } else {
                ExploreView {
                    class_file: st.class_file,
                    queries: st.queries,
                    logs: st.logs,
                    visited: st.visited.push(call_id(file, m)),
                    frames: st.frames,
                    wait: WaitView::Analysis(file, m, st.frames.last().path),
                }
            },
        },
        _ => st,
    }
}

/// What the caller is asked to do next.
pub enum ExploreRequest {
    /// Analyze the class of `java_file` for `method_name` and `doit`.
    AnalyzeClass { java_file: String, method_name: String },
    /// Tell whether the Java source at this path below `src/java` exists,
    /// and give its full path.
    FindJavaSource(String),
    Finished,
}

pub enum RequestView {
    AnalyzeClass(Seq<char>, Seq<char>),
    FindJavaSource(Seq<char>),
    Finished,
}

impl View for ExploreRequest {
    type V = RequestView;

    open spec fn view(&self) -> RequestView {
        match self {
            ExploreRequest::AnalyzeClass { java_file, method_name } => RequestView::AnalyzeClass(java_file@, method_name@),
            ExploreRequest::FindJavaSource(p) => RequestView::FindJavaSource(p@),
            ExploreRequest::Finished => RequestView::Finished,
        }
    }
}

pub open spec fn request_of(w: WaitView) -> RequestView {
    match w {
        WaitView::First(f, m) => RequestView::AnalyzeClass(f, m),
        WaitView::Source(rel, m) => RequestView::FindJavaSource(rel),
        WaitView::Analysis(f, m, c) => RequestView::AnalyzeClass(f, m),
        WaitView::Finished => RequestView::Finished,
    }
}

struct Frame {
    refs: Vec<MethodCall>,
    next: usize,
    path: Vec<String>,
}

impl View for Frame {
    type V = FrameView;

    closed spec fn view(&self) -> FrameView {
        FrameView { refs: calls_view(self.refs@), next: self.next as int, path: string_views(self.path@) }
    }
}

enum Wait {
    First { file: String, method: String },
    Source { rel: String, method: String },
    Analysis { file: String, method: String, caller: Vec<String> },
    Finished,
}

impl View for Wait {
    type V = WaitView;

    closed spec fn view(&self) -> WaitView {
        match self {
            Wait::First { file, method } => WaitView::First(file@, method@),
            Wait::Source { rel, method } => WaitView::Source(rel@, method@),
            Wait::Analysis { file, method, caller } => WaitView::Analysis(file@, method@, string_views(caller@)),
            Wait::Finished => WaitView::Finished,
        }
    }
}

/// The calls followed from a located handler, depth first, each method
/// (by file and name) analyzed once.
pub struct Exploration {
    class_file: Option<String>,
    queries: Vec<QueryUsage>,
    logs: Vec<String>,
    visited: Vec<String>,
    frames: Vec<Frame>,
    wait: Wait,
}

impl View for Exploration {
    type V = ExploreView;

    closed spec fn view(&self) -> ExploreView {
        ExploreView {
            class_file: opt_str(self.class_file),
            queries: usages_view(self.queries@),
            logs: string_views(self.logs@),
            visited: string_views(self.visited@),
            frames: self.frames@.map_values(|f: Frame| f@),
            wait: self.wait@,
        }
    }
}

fn copy_strings(v: &Vec<String>) -> (r: Vec<String>)
    ensures
        string_views(r@) == string_views(v@),
{
    let mut r: Vec<String> = Vec::new();
    let mut i: usize = 0;
    while i < v.len()
        invariant
            i <= v.len(),
            string_views(r@) == string_views(v@).take(i as int),
        decreases v.len() - i,
    {
        let ghost before = string_views(r@);
        r.push(v[i].clone());
        assert(string_views(r@) =~= before.push(v@[i as int]@));
        assert(string_views(v@).take(i + 1) =~= string_views(v@).take(i as int).push(v@[i as int]@));
        i += 1;
    }
    assert(string_views(v@).take(v@.len() as int) =~= string_views(v@));
    r
}

impl Exploration {
    /// Starts with the handler's class.
    pub fn start(location: &JavaServiceLocation) -> (r: Exploration)
        ensures
            r@ == explore_start(location@.0, location@.1),
    {
        let id = concat(&concat(&chars_of(location.java_file.as_str()), &lit("#")), &chars_of(location.method_name.as_str()));
        let mut visited: Vec<String> = Vec::new();
        visited.push(string_of(&id));
        let r = Exploration {
            class_file: None,
            queries: Vec::new(),
            logs: Vec::new(),
            visited,
            frames: Vec::new(),
            wait: Wait::First { file: location.java_file.clone(), method: location.method_name.clone() },
        };
        assert(r@.visited =~= seq![call_id(location@.0, location@.1)]);
        assert(r@.queries =~= Seq::<(Seq<Seq<char>>, Seq<char>)>::empty());
        assert(r@.logs =~= Seq::<Seq<char>>::empty());
        assert(r@.frames =~= Seq::<FrameView>::empty());
        r
    }

    /// What the caller is to do next.
    pub fn request(&self) -> (r: ExploreRequest)
        ensures
            r@ == request_of(self@.wait),
    {
        match &self.wait {
            Wait::First { file, method } => ExploreRequest::AnalyzeClass { java_file: file.clone(), method_name: method.clone() },
            Wait::Source { rel, method } => ExploreRequest::FindJavaSource(rel.clone()),
            Wait::Analysis { file, method, caller } => ExploreRequest::AnalyzeClass { java_file: file.clone(), method_name: method.clone() },
            Wait::Finished => ExploreRequest::Finished,
        }
    }

    fn advance(&mut self)
        ensures
            final(self)@ == advance(old(self)@),
    {
        loop
            invariant
                advance(self@) == advance(old(self)@),
            decreases remaining(self@.frames),
        {
            let ghost st = self@;
            if self.frames.len() == 0 {
                self.wait = Wait::Finished;
                assert(self@ == with_frames(st, st.frames, WaitView::Finished));
                return;
            }
            let mut top = self.frames.pop().unwrap();
            assert(self@.frames =~= st.frames.drop_last());
            if top.next >= top.refs.len() {
                assert(self@ == with_frames(st, st.frames.drop_last(), st.wait));
                continue;
            }
            let r = top.refs[top.next].duplicate();
            top.next = top.next + 1;
            let ghost fv = top@;
            self.frames.push(top);
            let ghost fs = st.frames.drop_last().push(fv);
            assert(self@.frames =~= fs);
            assert(fs.drop_last() =~= st.frames.drop_last());
            if starts_with_chars(&chars_of(r.class_name.as_str()), &lit(APP_PACKAGE)) {
                let rel = concat(&replace_char_of(&chars_of(r.class_name.as_str()), '.', '/'), &lit(".java"));
                self.wait = Wait::Source { rel: string_of(&rel), method: r.method_name };
                assert(self@ == with_frames(st, fs, WaitView::Source(source_of(r@.0), r@.1)));
                return;
            }
            assert(self@ == with_frames(st, fs, st.wait));
        }
    }

    /// Takes back the analysis of the class of the Java file waited for;
    /// the file's stem names the class in the call paths.
    pub fn class_analyzed(&mut self, res: Result<ClassAnalysisResult, String>)
        ensures
            final(self)@ == on_analyzed(old(self)@, analysis_view(res), wait_stem(old(self)@.wait)),
    {
        let ghost st = self@;
        let (first, method, caller) = match &self.wait {
            Wait::First { file, method } => (true, method.clone(), Vec::new()),
            Wait::Analysis { file, method, caller } => (false, method.clone(), copy_strings(caller)),
            _ => {
                return;
            },
        };
        let file = match &self.wait {
            Wait::First { file, method } => file.clone(),
            Wait::Analysis { file, method, caller } => file.clone(),
            _ => String::new(),
        };
        let stem = path_file_stem(file.as_str());
        match res {
            Ok(r) => {
                let ClassAnalysisResult { class_file, references, queries, logs } = r;
                let ghost rv = (class_file@, calls_view(references@), queries_view(queries@), string_views(logs@));
                let step = concat(&concat(&chars_of(stem.as_str()), &lit(".")), &chars_of(method.as_str()));
                let mut path = caller;
                let ghost caller_v = string_views(path@);
                path.push(string_of(&step));
                assert(string_views(path@) =~= caller_v.push(stem@ + "."@ + method@));
                if first {
                    assert(caller_v =~= Seq::<Seq<char>>::empty());
                    self.class_file = Some(class_file);
                }
                self.add_queries(&path, &queries);
                let ghost l0 = string_views(self.logs@);
                let ghost s1 = self@;
                let mut k: usize = 0;
                while k < logs.len()
                    invariant
                        k <= logs.len(),
                        string_views(self.logs@) == l0 + string_views(logs@).take(k as int),
                        self@ == (ExploreView { logs: string_views(self.logs@), ..s1 }),
                    decreases logs.len() - k,
                {
                    let ghost before = string_views(self.logs@);
                    self.logs.push(logs[k].clone());
                    assert(string_views(self.logs@) =~= before.push(logs@[k as int]@));
                    assert(string_views(logs@).take(k + 1) =~= string_views(logs@).take(k as int).push(logs@[k as int]@));
                    k += 1;
                }
                assert(string_views(logs@).take(logs@.len() as int) =~= string_views(logs@));
                let fr = Frame { refs: references, next: 0, path };
                let ghost fv = fr@;
                self.frames.push(fr);
                self.wait = Wait::Finished;
                proof {
                    let pre = ExploreView {
                        class_file: if first { Some(rv.0) } else { st.class_file },
                        queries: st.queries + usages_of(fv.path, rv.2),
                        logs: st.logs + rv.3,
                        visited: st.visited,
                        frames: st.frames.push(fv),
                        wait: WaitView::Finished,
                    };
                    assert(self@.frames =~= st.frames.push(fv));
                    assert(self@ == pre);
                }
                self.advance();
            },
            Err(e) => {
                if first {
                    let ghost l0 = string_views(self.logs@);
                    self.logs.push(string_of(&concat(&lit(FIRST_FAILED_LOG), &chars_of(e.as_str()))));
                    assert(string_views(self.logs@) =~= l0.push(FIRST_FAILED_LOG@ + e@));
                    self.wait = Wait::Finished;
                } else {
                    let ghost l0 = string_views(self.logs@);
                    let m1 = concat(&lit("[ANALYZE] 내부 class 분석 실패("), &chars_of(file.as_str()));
                    let m2 = concat(&concat(&m1, &lit("): ")), &chars_of(e.as_str()));
                    self.logs.push(string_of(&m2));
                    assert(string_views(self.logs@) =~= l0.push("[ANALYZE] 내부 class 분석 실패("@ + file@ + "): "@ + e@));
                    self.wait = Wait::Finished;
                    self.advance();
                }
            },
        }
    }

    fn add_queries(&mut self, path: &Vec<String>, qs: &Vec<FoundQuery>)
        ensures
            final(self)@ == (ExploreView {
                queries: old(self)@.queries + usages_of(string_views(path@), queries_view(qs@)),
                ..old(self)@
            }),
    {
        let ghost q0 = usages_view(self.queries@);
        let ghost target = usages_of(string_views(path@), queries_view(qs@));
        let mut i: usize = 0;
        while i < qs.len()
            invariant
                i <= qs.len(),
                target == usages_of(string_views(path@), queries_view(qs@)),
                self@ == (ExploreView { queries: q0 + target.take(i as int), ..old(self)@ }),
            decreases qs.len() - i,
        {
            let q = &qs[i];
            let simple = last_segment_of(&chars_of(q.dao_class.as_str()), '.');
            let last = concat(&concat(&simple, &lit(".")), &chars_of(q.call_method.as_str()));
            let mut cp = copy_strings(path);
            let ghost p0 = string_views(cp@);
            cp.push(string_of(&last));
            assert(string_views(cp@) =~= p0.push(last@));
            let u = QueryUsage { call_path: cp, query_id: q.query_id.clone() };
            let ghost before = usages_view(self.queries@);
            self.queries.push(u);
            assert(usages_view(self.queries@) =~= before.push(u@));
            assert(target[i as int] == u@);
            assert(target.take(i + 1) =~= target.take(i as int).push(target[i as int]));
            i += 1;
        }
        assert(target.take(qs@.len() as int) =~= target);
    }

    /// Takes back the search for a called class's source: its full path
    /// when it exists.
    pub fn source_found(&mut self, found: Option<String>)
        ensures
            final(self)@ == on_source(old(self)@, opt_str(found)),
    {
        let ghost st = self@;
        let method = match &self.wait {
            Wait::Source { rel, method } => method.clone(),
            _ => {
                return;
            },
        };
        match found {
            None => {
                self.advance();
            },
            Some(file) => {
                let id = string_of(&concat(&concat(&chars_of(file.as_str()), &lit("#")), &chars_of(method.as_str())));
                let mut seen = false;
                let mut i: usize = 0;
                let ghost sv = st.visited;
                while i < self.visited.len()
                    invariant
                        i <= self.visited.len(),
                        self@ == st,
                        sv == string_views(self.visited@),
                        seen == exists|j: int| 0 <= j < i && #[trigger] sv[j] == id@,
                    decreases self.visited.len() - i,
                {
                    assert(sv[i as int] == self.visited@[i as int]@);
                    if crate::text::eq_chars(&chars_of(self.visited[i].as_str()), &chars_of(id.as_str())) {
                        seen = true;
                    }
                    assert(seen == exists|j: int| 0 <= j < i + 1 && #[trigger] sv[j] == id@);
                    i += 1;
                }
                assert(seen == st.visited.contains(id@));
                if seen || self.frames.len() == 0 {
                    self.advance();
                } else {
                    let caller = copy_strings(&self.frames[self.frames.len() - 1].path);
                    let ghost v0 = string_views(self.visited@);
                    self.visited.push(id);
                    assert(string_views(self.visited@) =~= v0.push(call_id(file@, method@)));
                    self.wait = Wait::Analysis { file, method, caller };
                }
            },
        }
    }

    /// Whether the exploration is over.
    pub fn is_finished(&self) -> (b: bool)
        ensures
            b == (self@.wait is Finished),
    {
        match &self.wait {
            Wait::Finished => true,
            _ => false,
        }
    }
}

/// The row of an action whose handler was located: its class file, the
/// queries reached and the logs of the way.
pub open spec fn found_row(a: ActionView, url: Seq<char>, logs: Seq<Seq<char>>, loc: LocView, ex: ExploreView) -> AnalysisView {
    AnalysisView {
        result_id: a.0,
        action_id: a.1,
        xfdl_path: a.2,
        xfdl_name: a.3,
        service_url: Some(url),
        status: AnalysisStatus::Found,
        java_file: Some(loc.0),
        class_file: ex.class_file,
        method_name: Some(loc.1),
        method_line: Some(loc.2),
        queries: ex.queries,
        error_msg: None,
        debug_logs: logs.push("Java Locator: "@ + location_debug(loc)) + ex.logs,
        analysis_type: AnalysisType::ActionSubmit,
        combo_param: None,
        is_common_code: None,
    }
}

/// The row of an action whose handler was located, once its calls have
/// been followed.
pub fn finish_action(action: &ExtractedAction, url: String, logs: Vec<String>, location: JavaServiceLocation, exploration: Exploration) -> (r: AnalysisResult)
    ensures
        r@ == found_row(action@, url@, string_views(logs@), location@, exploration@),
{
    let ghost ev = exploration@;
    let Exploration { class_file, queries, logs: more, visited, frames, wait } = exploration;
    let mut logs = logs;
    let ghost l0 = string_views(logs@);
    logs.push(string_of(&concat(&lit("Java Locator: "), &chars_of(debug_location(&location).as_str()))));
    let ghost l1 = string_views(logs@);
    assert(l1 =~= l0.push("Java Locator: "@ + location_debug(location@)));
    let mut k: usize = 0;
    while k < more.len()
        invariant
            k <= more.len(),
            string_views(logs@) == l1 + string_views(more@).take(k as int),
        decreases more.len() - k,
    {
        let ghost before = string_views(logs@);
        logs.push(more[k].clone());
        assert(string_views(logs@) =~= before.push(more@[k as int]@));
        assert(string_views(more@).take(k + 1) =~= string_views(more@).take(k as int).push(more@[k as int]@));
        k += 1;
    }
    assert(string_views(more@).take(more@.len() as int) =~= string_views(more@));
    let JavaServiceLocation { java_file, method_name, method_line } = location;
    AnalysisResult {
        result_id: action.result_id.clone(),
        action_id: action.action_id.clone(),
        xfdl_path: action.xfdl_path.clone(),
        xfdl_name: action.xfdl_name.clone(),
        service_url: Some(url),
        status: AnalysisStatus::Found,
        java_file: Some(java_file),
        class_file,
        method_name: Some(method_name),
        method_line: Some(method_line),
        queries,
        error_msg: None,
        debug_logs: logs,
        analysis_type: AnalysisType::ActionSubmit,
        combo_param: None,
        is_common_code: None,
    }
}

// ───────────────────────── laws of the exploration ─────────────────────────

/// Looking for the next call changes only the frames and what is awaited:
/// the class file, the queries, the logs and the visited methods stay; it
/// ends waiting for a source or finished.
pub proof fn lemma_advance_keeps(st: ExploreView)
    ensures
        advance(st).class_file == st.class_file,
        advance(st).queries == st.queries,
        advance(st).logs == st.logs,
        advance(st).visited == st.visited,
        advance(st).wait is Source || advance(st).wait is Finished,
    decreases remaining(st.frames),
{
    if st.frames.len() > 0 {
        let top = st.frames.last();
        if top.next >= top.refs.len() {
            lemma_advance_keeps(with_frames(st, st.frames.drop_last(), st.wait));
        } else {
            let r = top.refs[top.next];
            let fs = st.frames.drop_last().push(FrameView { refs: top.refs, next: top.next + 1, path: top.path });
            assert(fs.drop_last() =~= st.frames.drop_last());
            if !starts_with(r.0, APP_PACKAGE@) {
                lemma_advance_keeps(with_frames(st, fs, st.wait));
            }
        }
    }
}

/// A method is analyzed at most once: when a found source leads to an
/// analysis, that method (by file and name) was not visited before, and it
/// is visited from then on; in every other case nothing new is visited.
pub proof fn law_method_analyzed_once(st: ExploreView, found: Option<Seq<char>>)
    requires
        st.wait is Source,
    ensures
        on_source(st, found).wait matches WaitView::Analysis(f, m, c) ==> (
            st.wait->Source_1 == m && found == Some(f)
            && !st.visited.contains(call_id(f, m))
            && on_source(st, found).visited == st.visited.push(call_id(f, m))),
        !(on_source(st, found).wait is Analysis) ==> on_source(st, found).visited == st.visited,
{
    lemma_advance_keeps(st);
}

/// A class analysis coming back never asks for another analysis at once,
/// visits nothing new, and only adds to the queries and the logs.
pub proof fn law_analysis_result_kept(st: ExploreView, res: Result<ResultView, Seq<char>>, stem: Seq<char>)
    ensures
        !(on_analyzed(st, res, stem).wait is Analysis) || on_analyzed(st, res, stem) == st,
        on_analyzed(st, res, stem).visited == st.visited,
        on_analyzed(st, res, stem).queries.take(st.queries.len() as int) == st.queries,
        on_analyzed(st, res, stem).logs.take(st.logs.len() as int) == st.logs,
{
    match st.wait {
        WaitView::First(f, m) => match res {
            Ok(r) => {
                let path = seq![stem + "."@ + m];
                let pre = ExploreView {
                    class_file: Some(r.0),
                    queries: st.queries + usages_of(path, r.2),
                    logs: st.logs + r.3,
                    visited: st.visited,
                    frames: st.frames.push(FrameView { refs: r.1, next: 0, path: path }),
                    wait: WaitView::Finished,
                };
                lemma_advance_keeps(pre);
                assert(pre.queries.take(st.queries.len() as int) =~= st.queries);
                assert(pre.logs.take(st.logs.len() as int) =~= st.logs);
            },
            Err(e) => {
                assert(st.logs.push(FIRST_FAILED_LOG@ + e).take(st.logs.len() as int) =~= st.logs);
                assert(st.queries.take(st.queries.len() as int) =~= st.queries);
            },
        },
        WaitView::Analysis(f, m, caller) => match res {
            Ok(r) => {
                let path = caller.push(stem + "."@ + m);
                let pre = ExploreView {
                    class_file: st.class_file,
                    queries: st.queries + usages_of(path, r.2),
                    logs: st.logs + r.3,
                    visited: st.visited,
                    frames: st.frames.push(FrameView { refs: r.1, next: 0, path: path }),
                    wait: WaitView::Finished,
                };
                lemma_advance_keeps(pre);
                assert(pre.queries.take(st.queries.len() as int) =~= st.queries);
                assert(pre.logs.take(st.logs.len() as int) =~= st.logs);
            },
            Err(e) => {
                let pre = ExploreView {
                    class_file: st.class_file,
                    queries: st.queries,
                    logs: st.logs.push("[ANALYZE] 내부 class 분석 실패("@ + f + "): "@ + e),
                    visited: st.visited,
                    frames: st.frames,
                    wait: WaitView::Finished,
                };
                lemma_advance_keeps(pre);
                assert(pre.logs.take(st.logs.len() as int) =~= st.logs);
                assert(st.queries.take(st.queries.len() as int) =~= st.queries);
            },
        },
        _ => {
            assert(st.queries.take(st.queries.len() as int) =~= st.queries);
            assert(st.logs.take(st.logs.len() as int) =~= st.logs);
        },
    }
}

/// Each query found by an analysis gets the call path of the analyzed
/// method (its caller's path, then `Class.method`) followed by the DAO call.
pub proof fn law_analysis_query_paths(st: ExploreView, r: ResultView, stem: Seq<char>)
    ensures
        st.wait matches WaitView::First(f, m) ==> on_analyzed(st, Ok(r), stem).queries == st.queries + usages_of(
            seq![stem + "."@ + m],
            r.2,
        ),
        st.wait matches WaitView::Analysis(f, m, caller) ==> on_analyzed(st, Ok(r), stem).queries == st.queries
            + usages_of(caller.push(stem + "."@ + m), r.2),
{
    match st.wait {
        WaitView::First(f, m) => {
            let path = seq![stem + "."@ + m];
            lemma_advance_keeps(
                ExploreView {
                    class_file: Some(r.0),
                    queries: st.queries + usages_of(path, r.2),
                    logs: st.logs + r.3,
                    visited: st.visited,
                    frames: st.frames.push(FrameView { refs: r.1, next: 0, path: path }),
                    wait: WaitView::Finished,
                },
            );
        },
        WaitView::Analysis(f, m, caller) => {
            let path = caller.push(stem + "."@ + m);
            lemma_advance_keeps(
                ExploreView {
                    class_file: st.class_file,
                    queries: st.queries + usages_of(path, r.2),
                    logs: st.logs + r.3,
                    visited: st.visited,
                    frames: st.frames.push(FrameView { refs: r.1, next: 0, path: path }),
                    wait: WaitView::Finished,
                },
            );
        },
        _ => {},
    }
}

/// A row without its logs.
pub open spec fn without_logs(v: AnalysisView) -> AnalysisView {
    AnalysisView { debug_logs: Seq::empty(), ..v }
}

/// Two steps that differ in their logs at most.
pub open spec fn same_but_logs(a: BeginView, b: BeginView) -> bool {
    match (a, b) {
        (BeginView::Done(x), BeginView::Done(y)) => without_logs(x) == without_logs(y),
        (BeginView::Locate(s1, u1, l1), BeginView::Locate(s2, u2, l2)) => s1 == s2 && u1 == u2,
        (BeginView::Located(u1, l1, x), BeginView::Located(u2, l2, y)) => u1 == u2 && x == y,
        _ => false,
    }
}

/// When the `common/service` search of a URL fails, the row goes on to the
/// typedef search with the logs it had plus one, as it would have with the
/// heuristic off; from there the logs are the only difference in the row.
pub proof fn law_system_fallback(
    a: ActionView,
    index: Map<Seq<char>, Seq<LocView>>,
    e: Seq<char>,
    url: Seq<char>,
    logs1: Seq<Seq<char>>,
    logs2: Seq<Seq<char>>,
    r: Result<LocView, Seq<char>>,
    loc: LocView,
    ex: ExploreView,
)
    ensures
        ({
            let b = begin_of(a, index, true);
            b is Locate && b->Locate_0 ==> begin_of(a, index, false) == BeginView::Locate(false, b->Locate_1, b->Locate_2)
                && after_system_of(b->Locate_1, b->Locate_2, Err(e)) == BeginView::Locate(
                false,
                b->Locate_1,
                b->Locate_2.push(SYSTEM_FAILED_LOG@ + e),
            )
        }),
        same_but_logs(after_typedef_of(a, url, logs1, r), after_typedef_of(a, url, logs2, r)),
        without_logs(found_row(a, url, logs1, loc, ex)) == without_logs(found_row(a, url, logs2, loc, ex)),
{
}


// ───────────────────────── call paths along the exploration ─────────────────────────

/// The call paths of the methods being followed form one chain: the
/// handler's frame has a path of one step, each deeper frame's path is
/// its caller frame's path plus one step, nothing is followed before the
/// handler's class is analyzed, and an awaited analysis carries the path
/// of the frame whose call it follows.
pub open spec fn frame_paths_chained(st: ExploreView) -> bool {
    &&& forall|i: int| 0 <= i < st.frames.len() ==> (#[trigger] st.frames[i]).path.len() == i + 1
    &&& forall|i: int| 0 < i < st.frames.len() ==> (#[trigger] st.frames[i]).path.take(i) == st.frames[i - 1].path
    &&& st.wait is First ==> st.frames.len() == 0
    &&& st.wait matches WaitView::Analysis(f, m, c) ==> st.frames.len() > 0 && c == st.frames.last().path
}

/// Looking for the next call only drops frames from the top or moves the
/// top frame on; the frames kept keep their call paths.
pub proof fn lemma_advance_paths(st: ExploreView)
    ensures
        advance(st).frames.len() <= st.frames.len(),
        forall|i: int| 0 <= i < advance(st).frames.len() ==> (#[trigger] advance(st).frames[i]).path == st.frames[i].path,
    decreases remaining(st.frames),
{
    if st.frames.len() > 0 {
        let top = st.frames.last();
        if top.next >= top.refs.len() {
            let s2 = with_frames(st, st.frames.drop_last(), st.wait);
            lemma_advance_paths(s2);
        } else {
            let r = top.refs[top.next];
            let fs = st.frames.drop_last().push(FrameView { refs: top.refs, next: top.next + 1, path: top.path });
            assert(fs.drop_last() =~= st.frames.drop_last());
            assert forall|i: int| 0 <= i < fs.len() implies (#[trigger] fs[i]).path == st.frames[i].path by {
                if i < fs.len() - 1 {
                    assert(fs[i] == st.frames.drop_last()[i]);
                }
            }
            if !starts_with(r.0, APP_PACKAGE@) {
                lemma_advance_paths(with_frames(st, fs, st.wait));
            }
        }
    }
}

proof fn lemma_advance_chained(st: ExploreView)
    requires
        frame_paths_chained(with_frames(st, st.frames, WaitView::Finished)),
    ensures
        frame_paths_chained(advance(st)),
{
    lemma_advance_paths(st);
    lemma_advance_keeps(st);
    let a = advance(st);
    let w = with_frames(st, st.frames, WaitView::Finished);
    assert forall|i: int| 0 < i < a.frames.len() implies (#[trigger] a.frames[i]).path.take(i) == a.frames[i - 1].path by {
        assert(a.frames[i - 1].path == st.frames[i - 1].path);
        assert(w.frames[i].path.take(i) == w.frames[i - 1].path);
    }
    assert forall|i: int| 0 <= i < a.frames.len() implies (#[trigger] a.frames[i]).path.len() == i + 1 by {
        assert(w.frames[i].path.len() == i + 1);
    }
}

/// Each method analyzed below the handler is followed with its caller's
/// whole call path plus its own `Class.method` step, from the start of an
/// exploration on: the chain holds at the start, after every analysis that
/// comes back and after every source search. So the frame a method's calls
/// are followed from carries the same path as the method's own queries.
pub proof fn law_call_paths_chained(
    file: Seq<char>,
    method: Seq<char>,
    st: ExploreView,
    res: Result<ResultView, Seq<char>>,
    stem: Seq<char>,
    found: Option<Seq<char>>,
)
    ensures
        frame_paths_chained(explore_start(file, method)),
        frame_paths_chained(st) ==> frame_paths_chained(on_analyzed(st, res, stem)),
        frame_paths_chained(st) ==> frame_paths_chained(on_source(st, found)),
        frame_paths_chained(st) && st.wait is Analysis && res is Ok ==> on_analyzed(st, res, stem).queries
            == st.queries + usages_of(st.frames.last().path.push(stem + "."@ + st.wait->Analysis_1), res->Ok_0.2),
{
    if frame_paths_chained(st) {
        match st.wait {
            WaitView::First(f, m) => match res {
                Ok(r) => {
                    let path = seq![stem + "."@ + m];
                    let pre = ExploreView {
                        class_file: Some(r.0),
                        queries: st.queries + usages_of(path, r.2),
                        logs: st.logs + r.3,
                        visited: st.visited,
                        frames: st.frames.push(FrameView { refs: r.1, next: 0, path: path }),
                        wait: WaitView::Finished,
                    };
                    lemma_advance_chained(pre);
                },
                Err(e) => {},
            },
            WaitView::Analysis(f, m, caller) => {
                match res {
                    Ok(r) => {
                        let path = caller.push(stem + "."@ + m);
                        let pre = ExploreView {
                            class_file: st.class_file,
                            queries: st.queries + usages_of(path, r.2),
                            logs: st.logs + r.3,
                            visited: st.visited,
                            frames: st.frames.push(FrameView { refs: r.1, next: 0, path: path }),
                            wait: WaitView::Finished,
                        };
                        let n = st.frames.len() as int;
                        assert(caller.len() == n);
                        assert(path.take(n) =~= caller);
                        assert forall|i: int| 0 < i < pre.frames.len() implies (#[trigger] pre.frames[i]).path.take(i) == pre.frames[i - 1].path by {
                            if i < n {
                                assert(pre.frames[i] == st.frames[i]);
                            }
                        }
                        assert forall|i: int| 0 <= i < pre.frames.len() implies (#[trigger] pre.frames[i]).path.len() == i + 1 by {
                            if i < n {
                                assert(pre.frames[i] == st.frames[i]);
                            }
                        }
                        lemma_advance_chained(pre);
                        law_analysis_query_paths(st, r, stem);
                    },
                    Err(e) => {
                        let pre = ExploreView {
                            class_file: st.class_file,
                            queries: st.queries,
                            logs: st.logs.push("[ANALYZE] 내부 class 분석 실패("@ + f + "): "@ + e),
                            visited: st.visited,
                            frames: st.frames,
                            wait: WaitView::Finished,
                        };
                        lemma_advance_chained(pre);
                    },
                }
            },
            WaitView::Source(rel, m) => {
                lemma_advance_chained(st);
            },
            _ => {},
        }
    }
}

} // verus!
