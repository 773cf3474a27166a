//! The rows of the exported sheet: one line per query of a result, or one
//! line for a result without queries, fourteen cells each.
use vstd::prelude::*;

use crate::models::{AnalysisResult, AnalysisStatus, AnalysisType, AnalysisView};
use crate::text::{
    before_char, before_char_of, chars_of, concat, decimal, decimal_of, lit, string_of,
    string_views, trim_start_char, trim_start_char_of,
};

verus! {

/// The column titles.
pub open spec fn header_cells() -> Seq<Seq<char>> {
    seq![
        "분석ID"@, "ActionID"@, "유형"@, "XFDL 파일"@, "상태"@,
        "서비스 URL"@, "서비스 URL 접두사"@, "Java 파일"@, "메서드명"@, "라인번호"@,
        "쿼리 수"@, "호출 경로"@, "호출 쿼리"@, "오류 메시지"@,
    ]
}

/// The column titles of the sheet.
pub fn export_headers() -> (r: Vec<String>)
    ensures
        string_views(r@) == header_cells(),
{
    let r = vec![
        string_of(&lit("분석ID")), string_of(&lit("ActionID")), string_of(&lit("유형")),
        string_of(&lit("XFDL 파일")), string_of(&lit("상태")), string_of(&lit("서비스 URL")),
        string_of(&lit("서비스 URL 접두사")), string_of(&lit("Java 파일")), string_of(&lit("메서드명")),
        string_of(&lit("라인번호")), string_of(&lit("쿼리 수")), string_of(&lit("호출 경로")),
        string_of(&lit("호출 쿼리")), string_of(&lit("오류 메시지")),
    ];
    assert(string_views(r@) =~= header_cells());
    r
}

/// The prefix of a service URL: after its leading slashes, up to the next
/// slash; empty without a URL.
pub open spec fn url_prefix(u: Option<Seq<char>>) -> Seq<char> {
    match u {
        Some(s) => before_char(trim_start_char(s, '/'), '/'),
        None => Seq::empty(),
    }
}

/// The prefix of a service URL (e.g. `cmcs` for `/cmcs/0246/select`).
pub fn service_url_prefix(service_url: Option<&String>) -> (r: String)
    ensures
        r@ == url_prefix(match service_url {
            Some(s) => Some(s@),
            None => None,
        }),
{
    match service_url {
        None => String::new(),
        Some(u) => string_of(&before_char_of(&trim_start_char_of(&chars_of(u.as_str()), '/'), '/')),
    }
}

pub open spec fn status_text(s: AnalysisStatus) -> Seq<char> {
    match s {
        AnalysisStatus::Found => "발견"@,
        AnalysisStatus::NotFound => "미발견"@,
        AnalysisStatus::ManualCheck => "수동확인"@,
        AnalysisStatus::Error => "오류"@,
    }
}

pub open spec fn type_text(t: AnalysisType) -> Seq<char> {
    match t {
        AnalysisType::ActionSubmit => "actionSubmit"@,
        AnalysisType::Combo => "콤보"@,
    }
}

pub open spec fn or_empty(o: Option<Seq<char>>) -> Seq<char> {
    match o {
        Some(s) => s,
        None => Seq::empty(),
    }
}

/// `parts` joined by `sep`.
pub open spec fn joined(parts: Seq<Seq<char>>, sep: Seq<char>) -> Seq<char>
    decreases parts.len(),
{
    if parts.len() == 0 {
        Seq::empty()
    } else if parts.len() == 1 {
        parts[0]
    } else {
        joined(parts.drop_last(), sep) + sep + parts.last()
    }
}

/// Joining puts `sep` between every two neighbouring parts and nowhere
/// else: nothing for no parts, the part itself for one, and for more the
/// first part, `sep`, then the rest joined (equally: the parts but the
/// last joined, `sep`, then the last part).
pub proof fn law_joined_separates_neighbours(p: Seq<Seq<char>>, x: Seq<char>, sep: Seq<char>)
    ensures
        joined(Seq::empty(), sep) == Seq::<char>::empty(),
        joined(seq![x], sep) == x,
        p.len() > 0 ==> joined(p.push(x), sep) == joined(p, sep) + sep + x,
        p.len() > 0 ==> joined(seq![x] + p, sep) == x + sep + joined(p, sep),
    decreases p.len(),
{
    if p.len() > 0 {
        assert(p.push(x).drop_last() =~= p);
        let q = seq![x] + p;
        if p.len() == 1 {
            assert(q.drop_last() =~= seq![x]);
            assert(q.last() == p[0]);
        } else {
            law_joined_separates_neighbours(p.drop_last(), x, sep);
            assert(q.drop_last() =~= seq![x] + p.drop_last());
            assert(q.last() == p.last());
            assert(joined(q, sep) =~= x + sep + joined(p, sep));
        }
    }
}

/// One line of the sheet for a result: the query count, the call path and
/// the query of the line vary, the other cells come from the result.
pub open spec fn line_of(r: AnalysisView, count: Seq<char>, path: Seq<char>, query: Seq<char>) -> Seq<Seq<char>> {
    seq![
        r.result_id,
        r.action_id,
        type_text(r.analysis_type),
        r.xfdl_name,
        status_text(r.status),
        or_empty(r.service_url),
        url_prefix(r.service_url),
        or_empty(r.java_file),
        or_empty(r.method_name),
        match r.method_line {
            Some(l) => decimal(l as nat),
            None => Seq::empty(),
        },
        count,
        path,
        query,
        or_empty(r.error_msg),
    ]
}

/// The lines of a result: one per query; without queries one line, whose
/// query cell shows the parameter of a common-code combo.
pub open spec fn lines_of_result(r: AnalysisView) -> Seq<Seq<Seq<char>>> {
    if r.queries.len() == 0 {
        let q = if r.analysis_type == AnalysisType::Combo && r.is_common_code == Some(true) {
            or_empty(r.combo_param)
        } else {
            Seq::empty()
        };
        seq![line_of(r, "0"@, Seq::empty(), q)]
    } else {
        Seq::new(
            r.queries.len(),
            |i: int| line_of(r, decimal(r.queries.len()), joined(r.queries[i].0, " -> "@), r.queries[i].1),
        )
    }
}

/// The lines of all results, in order.
pub open spec fn sheet_lines(rs: Seq<AnalysisView>) -> Seq<Seq<Seq<char>>>
    decreases rs.len(),
{
    if rs.len() == 0 {
        Seq::empty()
    } else {
        sheet_lines(rs.drop_last()) + lines_of_result(rs.last())
    }
}

/// How many lines a result takes: one per query, one when it has none.
pub open spec fn lines_needed(r: AnalysisView) -> nat {
    if r.queries.len() == 0 {
        1
    } else {
        r.queries.len()
    }
}

pub open spec fn total_lines(rs: Seq<AnalysisView>) -> nat
    decreases rs.len(),
{
    if rs.len() == 0 {
        0
    } else {
        total_lines(rs.drop_last()) + lines_needed(rs.last())
    }
}

/// The sheet has one line per query of each result, and one line for each
/// result without queries; every line has fourteen cells, one per title.
pub proof fn law_sheet_shape(rs: Seq<AnalysisView>)
    ensures
        sheet_lines(rs).len() == total_lines(rs),
        forall|i: int| 0 <= i < sheet_lines(rs).len() ==> (#[trigger] sheet_lines(rs)[i]).len() == header_cells().len(),
    decreases rs.len(),
{
    if rs.len() > 0 {
        law_sheet_shape(rs.drop_last());
        let prev = sheet_lines(rs.drop_last());
        let more = lines_of_result(rs.last());
        assert forall|i: int| 0 <= i < sheet_lines(rs).len() implies (#[trigger] sheet_lines(rs)[i]).len() == header_cells().len() by {
            if i < prev.len() {
                assert(sheet_lines(rs)[i] == prev[i]);
            } else {
                assert(sheet_lines(rs)[i] == more[i - prev.len()]);
            }
        }
    }
}

pub open spec fn rows_view(rows: Seq<Vec<String>>) -> Seq<Seq<Seq<char>>> {
    rows.map_values(|r: Vec<String>| string_views(r@))
}

fn joined_of(parts: &Vec<String>, sep: &Vec<char>) -> (r: Vec<char>)
    ensures
        r@ == joined(string_views(parts@), sep@),
{
    let ghost pv = string_views(parts@);
    let mut r: Vec<char> = Vec::new();
    let mut i: usize = 0;
    assert(pv.take(0) =~= Seq::<Seq<char>>::empty());
    while i < parts.len()
        invariant
            i <= parts.len(),
            pv == string_views(parts@),
            r@ == joined(pv.take(i as int), sep@),
        decreases parts.len() - i,
    {
        assert(pv.take(i + 1).drop_last() =~= pv.take(i as int));
        assert(pv.take(i + 1).last() == parts@[i as int]@);
        let p = chars_of(parts[i].as_str());
        if i == 0 {
            r = p;
        } else {
            r = concat(&concat(&r, sep), &p);
        }
        i += 1;
    }
    assert(pv.take(parts@.len() as int) =~= pv);
    r
}

fn opt_text(o: &Option<String>) -> (r: String)
    ensures
        r@ == or_empty(match o {
            Some(s) => Some(s@),
            None => None,
        }),
{
    match o {
        Some(s) => s.clone(),
        None => String::new(),
    }
}

fn line(r: &AnalysisResult, count: String, path: String, query: String) -> (out: Vec<String>)
    ensures
        string_views(out@) == line_of(r@, count@, path@, query@),
{
    let type_str = match r.analysis_type {
        AnalysisType::ActionSubmit => lit("actionSubmit"),
        AnalysisType::Combo => lit("콤보"),
    };
    let status_str = match r.status {
        AnalysisStatus::Found => lit("발견"),
        AnalysisStatus::NotFound => lit("미발견"),
        AnalysisStatus::ManualCheck => lit("수동확인"),
        AnalysisStatus::Error => lit("오류"),
    };
    let line_no = match r.method_line {
        Some(l) => string_of(&decimal_of(l as u128)),
        None => String::new(),
    };
    let out = vec![
        r.result_id.clone(),
        r.action_id.clone(),
        string_of(&type_str),
        r.xfdl_name.clone(),
        string_of(&status_str),
        opt_text(&r.service_url),
        service_url_prefix(r.service_url.as_ref()),
        opt_text(&r.java_file),
        opt_text(&r.method_name),
        line_no,
        count,
        path,
        query,
        opt_text(&r.error_msg),
    ];
    assert(string_views(out@) =~= line_of(r@, count@, path@, query@));
    out
}

/// The lines of one result.
pub fn result_lines(r: &AnalysisResult) -> (out: Vec<Vec<String>>)
    ensures
        rows_view(out@) == lines_of_result(r@),
{
    let mut out: Vec<Vec<String>> = Vec::new();
    if r.queries.len() == 0 {
        let q = if r.analysis_type == AnalysisType::Combo && r.is_common_code == Some(true) {
            opt_text(&r.combo_param)
        } else {
            String::new()
        };
        out.push(line(r, string_of(&lit("0")), String::new(), q));
        assert(rows_view(out@) =~= lines_of_result(r@));
    } else {
        let ghost target = lines_of_result(r@);
        let count = decimal_of(r.queries.len() as u128);
        let arrow = lit(" -> ");
        let mut i: usize = 0;
        while i < r.queries.len()
            invariant
                i <= r.queries.len(),
                r.queries.len() > 0,
                target == lines_of_result(r@),
                count@ == decimal(r@.queries.len()),
                arrow@ == " -> "@,
                rows_view(out@) == target.take(i as int),
            decreases r.queries.len() - i,
        {
            let q = &r.queries[i];
            let path = string_of(&joined_of(&q.call_path, &arrow));
            let l = line(r, string_of(&count), path, q.query_id.clone());
            let ghost before = rows_view(out@);
            out.push(l);
            assert(rows_view(out@) =~= before.push(string_views(l@)));
            assert(r@.queries[i as int] == q@);
            assert(target.take(i + 1) =~= target.take(i as int).push(target[i as int]));
            i += 1;
        }
        assert(target.take(r.queries@.len() as int) =~= target);
    }
    out
}

/// The lines of the sheet below its titles, for all results in order.
pub fn export_lines(results: &Vec<AnalysisResult>) -> (out: Vec<Vec<String>>)
    ensures
        rows_view(out@) == sheet_lines(results@.map_values(|r: AnalysisResult| r@)),
{
    let ghost rv = results@.map_values(|r: AnalysisResult| r@);
    let mut out: Vec<Vec<String>> = Vec::new();
    let mut i: usize = 0;
    assert(rv.take(0) =~= Seq::<AnalysisView>::empty());
    while i < results.len()
        invariant
            i <= results.len(),
            rv == results@.map_values(|r: AnalysisResult| r@),
            rows_view(out@) == sheet_lines(rv.take(i as int)),
        decreases results.len() - i,
    {
        assert(rv.take(i + 1).drop_last() =~= rv.take(i as int));
        assert(rv.take(i + 1).last() == results@[i as int]@);
        let mut ls = result_lines(&results[i]);
        let ghost before = rows_view(out@);
        let ghost lv = rows_view(ls@);
        out.append(&mut ls);
        assert(rows_view(out@) =~= before + lv);
        i += 1;
    }
    assert(rv.take(results@.len() as int) =~= rv);
    out
}

} // verus!
