//! From a service URL to the Java service class and method that serve it.
//! The file system is searched by the caller; here are the URL rules and
//! the search of a method in a source text.
use vstd::prelude::*;

use crate::strmap::StrMap;
use crate::text::{
    decimal, decimal_of,
    eq_chars,
    ascii_upper, ascii_upper_char, before_char, before_char_of, chars_of, concat, contains_chars,
    contains_sub, ends_with, ends_with_chars, lines, lines_of, lit, lowercase, lowercase_of,
    split_char, split_char_of, starts_with, starts_with_chars, string_cat, string_of, trim,
    trim_chars, trim_end_char, trim_end_char_of, trim_start_char, trim_start_char_of, uppercase,
    uppercase_of, views, opt_chars, opt_str, find_char, find_char_of, lemma_find_char_facts,
};

verus! {

/// Where a service method is defined.
#[derive(Debug, Clone)]
pub struct JavaServiceLocation {
    pub java_file: String,
    pub method_name: String,
    pub method_line: u32,
}

impl View for JavaServiceLocation {
    type V = (Seq<char>, Seq<char>, u32);

    open spec fn view(&self) -> (Seq<char>, Seq<char>, u32) {
        (self.java_file@, self.method_name@, self.method_line)
    }
}

impl JavaServiceLocation {
    pub fn duplicate(&self) -> (r: JavaServiceLocation)
        ensures
            r@ == self@,
    {
        JavaServiceLocation {
            java_file: self.java_file.clone(),
            method_name: self.method_name.clone(),
            method_line: self.method_line,
        }
    }
}

/// What `format!("{:?}", s)` gives for a string: the text in double
/// quotes, each character escaped as `char::escape_debug` does.
pub uninterp spec fn quoted_debug(s: Seq<char>) -> Seq<char>;

/// Wraps the `Debug` formatting of a `str`; the text is named by
/// `quoted_debug`.
#[verifier::external_body]
fn str_debug(s: &str) -> (r: String)
    ensures
        r@ == quoted_debug(s@),
{
    format!("{:?}", s)
}

/// The `Debug` text of a location, as `derive(Debug)` writes it: the
/// struct's name, then each field's name and `Debug` text.
pub open spec fn location_debug(loc: (Seq<char>, Seq<char>, u32)) -> Seq<char> {
    "JavaServiceLocation { java_file: "@ + quoted_debug(loc.0) + ", method_name: "@ + quoted_debug(loc.1)
        + ", method_line: "@ + decimal(loc.2 as nat) + " }"@
}

/// The `Debug` text of a location.
pub fn debug_location(loc: &JavaServiceLocation) -> (r: String)
    ensures
        r@ == location_debug(loc@),
{
    let a = concat(&lit("JavaServiceLocation { java_file: "), &chars_of(str_debug(loc.java_file.as_str()).as_str()));
    let b = concat(&a, &lit(", method_name: "));
    let c = concat(&b, &chars_of(str_debug(loc.method_name.as_str()).as_str()));
    let d = concat(&c, &lit(", method_line: "));
    let e = concat(&d, &decimal_of(loc.method_line as u128));
    string_of(&concat(&e, &lit(" }")))
}

/// The path part of a URL: trimmed, without its query, without
/// `http://host` or `https://host`, trimmed again; `None` when empty.
pub open spec fn url_core(url: Seq<char>) -> Option<Seq<char>> {
    let t = trim(url);
    if t.len() == 0 {
        None
    } else {
        let p = before_char(t, '?');
        let q = if starts_with(p, "http://"@) || starts_with(p, "https://"@) {
            let after = if starts_with(p, "https://"@) {
                p.skip(8)
            } else {
                p.skip(7)
            };
            match find_char(after, '/') {
                Some(i) => Some(after.skip(i)),
                None => None,
            }
        } else {
            Some(p)
        };
        match q {
            None => None,
            Some(q) => if trim(q).len() == 0 {
                None
            } else {
                Some(trim(q))
            },
        }
    }
}

/// The path part of an ASCII URL is ASCII.
pub proof fn lemma_url_core_ascii(url: Seq<char>)
    requires
        crate::text::all_ascii(url),
    ensures
        url_core(url) matches Some(u) ==> crate::text::all_ascii(u),
{
    let t = trim(url);
    crate::text::lemma_trim_ascii(url);
    reveal_strlit("http://");
    reveal_strlit("https://");
    if t.len() > 0 {
        lemma_find_char_facts(t, '?');
        let p = before_char(t, '?');
        assert(crate::text::all_ascii(p));
        if starts_with(p, "http://"@) || starts_with(p, "https://"@) {
            let after = if starts_with(p, "https://"@) {
                p.skip(8)
            } else {
                p.skip(7)
            };
            assert(crate::text::all_ascii(after));
            lemma_find_char_facts(after, '/');
            if let Some(i) = find_char(after, '/') {
                assert(crate::text::all_ascii(after.skip(i)));
                crate::text::lemma_trim_ascii(after.skip(i));
            }
        } else {
            crate::text::lemma_trim_ascii(p);
        }
    }
}

/// The path of a URL with its case kept, with a leading `/`.
pub open spec fn url_path(url: Seq<char>) -> Option<Seq<char>> {
    match url_core(url) {
        None => None,
        Some(u) => if starts_with(u, "/"@) {
            Some(u)
        } else {
            Some(seq!['/'] + u)
        },
    }
}

/// The path part of a URL (see `url_core`).
pub fn url_core_of(url: &str) -> (r: Option<Vec<char>>)
    ensures
        opt_chars(r) == url_core(url@),
{
    let t = trim_chars(&chars_of(url));
    if t.len() == 0 {
        return None;
    }
    let p = before_char_of(&t, '?');
    let http = lit("http://");
    let https = lit("https://");
    proof {
        reveal_strlit("http://");
        reveal_strlit("https://");
    }
    let q = if starts_with_chars(&p, &http) || starts_with_chars(&p, &https) {
        let after = if starts_with_chars(&p, &https) {
            crate::text::slice(&p, 8, p.len())
        } else {
            crate::text::slice(&p, 7, p.len())
        };
        match find_char_of(&after, '/') {
            Some(i) => {
                proof {
                    lemma_find_char_facts(after@, '/');
                }
                let s = crate::text::slice(&after, i, after.len());
                assert(s@ =~= after@.skip(i as int));
                s
            },
            None => {
                return None;
            },
        }
    } else {
        p
    };
    let u = trim_chars(&q);
    if u.len() == 0 {
        return None;
    }
    Some(u)
}

/// `/` followed by `s`.
pub fn slash_then(s: &Vec<char>) -> (r: Vec<char>)
    ensures
        r@ == seq!['/'] + s@,
{
    let mut r: Vec<char> = vec!['/'];
    let r2 = concat(&r, s);
    assert(r@ == seq!['/']);
    r2
}

/// The path of a URL with its case kept.
pub fn extract_url_path_preserve_case(url: &str) -> (r: Option<String>)
    ensures
        opt_str(r) == url_path(url@),
{
    match url_core_of(url) {
        None => None,
        Some(u) => {
            let out = if starts_with_chars(&u, &lit("/")) {
                u
            } else {
                slash_then(&u)
            };
            Some(string_of(&out))
        },
    }
}

/// Whether the URL's path starts with `/system/`, whatever the case.
pub fn is_system_prefixed_service_url(url: &str) -> (r: bool)
    ensures
        r == (match url_path(url@) {
            Some(p) => starts_with(lowercase(p), "/system/"@),
            None => false,
        }),
{
    match extract_url_path_preserve_case(url) {
        Some(p) => {
            let l = lowercase_of(&chars_of(p.as_str()));
            starts_with_chars(&l, &lit("/system/"))
        },
        None => false,
    }
}

/// `commonApproval` → `CommonApproval`: the first character in ASCII upper case.
pub open spec fn pascal_stem(seg: Seq<char>) -> Seq<char> {
    if seg.len() == 0 {
        seg
    } else {
        seq![ascii_upper(seg[0])] + seg.drop_first()
    }
}

pub fn camel_segment_to_pascal_class_stem(seg: &str) -> (r: String)
    ensures
        r@ == pascal_stem(seg@),
{
    let v = chars_of(seg);
    if v.len() == 0 {
        return string_of(&v);
    }
    let mut out: Vec<char> = vec![ascii_upper_char(v[0])];
    let rest = crate::text::slice(&v, 1, v.len());
    let out = concat(&out, &rest);
    assert(out@ =~= pascal_stem(seg@));
    string_of(&out)
}

/// What a service URL `/{prefixid}/{fileId}/.../{method}` names: the class
/// folder (from the typedef map), the expected file name and the method.
#[derive(Debug, Clone)]
pub struct JavaServiceTarget {
    /// Folder below `com/shi`, e.g. `cm/cmc/cmcs`.
    pub url_path: String,
    /// `{PREFIXID}{fileId}Service.java`.
    pub expected_filename: String,
    pub method_name: String,
}

/// The segments of a service URL.
pub open spec fn url_segments(url: Seq<char>) -> Seq<Seq<char>> {
    split_char(trim_start_char(url, '/'), '/')
}

/// The target of a service URL, or the message the search fails with.
pub open spec fn service_target(url: Seq<char>, typedef: Map<Seq<char>, Seq<char>>) -> Result<
    (Seq<char>, Seq<char>, Seq<char>),
    Seq<char>,
> {
    let segs = url_segments(url);
    if segs.len() < 3 {
        Err("URL 세그먼트 부족 (최소 3개 필요): "@ + url)
    } else if !typedef.contains_key(segs[0]) {
        Err("prefixid '"@ + segs[0] + "' 를 default_typedef.xml에서 찾을 수 없음"@)
    } else {
        Ok(
            (
                typedef[segs[0]],
                uppercase(segs[0]) + segs[1] + "Service.java"@,
                segs.last(),
            ),
        )
    }
}

/// The URL rules of `locate_java_service`: which folder, file and method a
/// URL names.  The caller searches the folder and the file.
pub fn java_service_target(url: &str, typedef_map: &StrMap) -> (r: Result<JavaServiceTarget, String>)
    ensures
        match (r, service_target(url@, typedef_map@)) {
            (Ok(t), Ok(s)) => t.url_path@ == s.0 && t.expected_filename@ == s.1 && t.method_name@
                == s.2,
            (Err(e), Err(m)) => e@ == m,
            _ => false,
        },
{
    let u = chars_of(url);
    let segs = split_char_of(&trim_start_char_of(&u, '/'), '/');
    if segs.len() < 3 {
        return Err(string_cat(&lit("URL 세그먼트 부족 (최소 3개 필요): "), &u));
    }
    let prefix_id = &segs[0];
    let file_id = &segs[1];
    let method_name = &segs[segs.len() - 1];
    assert(views(segs@)[0] == prefix_id@);
    assert(views(segs@).last() == method_name@);
    assert(views(segs@)[1] == file_id@);
    let key = string_of(prefix_id);
    match typedef_map.get(&key) {
        None => {
            let m = concat(&lit("prefixid '"), prefix_id);
            Err(string_cat(&m, &lit("' 를 default_typedef.xml에서 찾을 수 없음")))
        },
        Some(url_path) => {
            let upper = uppercase_of(prefix_id);
            let f = concat(&upper, file_id);
            let fname = string_cat(&f, &lit("Service.java"));
            Ok(JavaServiceTarget { url_path, expected_filename: fname, method_name: string_of(method_name) })
        },
    }
}

/// What a `/system/{service}/.../{method}` URL names in `com/shi/common/service`.
pub open spec fn system_target(url: Seq<char>) -> Result<(Seq<char>, Seq<char>), Seq<char>> {
    match url_path(url) {
        None => Err("URL에서 경로를 추출할 수 없음"@),
        Some(path) => if !starts_with(lowercase(path), "/system/"@) {
            Err("URL이 /system/ 으로 시작하지 않음"@)
        } else {
            let tail = if path.len() >= 8 {
                path.skip(8)
            } else {
                Seq::empty()
            };
            let rest = trim_end_char(trim_start_char(tail, '/'), '/');
            let segs = split_char(rest, '/').filter(|s: Seq<char>| s.len() > 0);
            if segs.len() < 2 {
                Err("/system/ 이후 세그먼트가 2개 미만입니다: "@ + rest)
            } else {
                let pascal = pascal_stem(segs[0]);
                let file = if ends_with(pascal, "Service"@) {
                    pascal + ".java"@
                } else {
                    pascal + "Service.java"@
                };
                Ok((segs.last(), file))
            }
        },
    }
}

/// The URL rules of `locate_system_common_service`: the method and the file
/// name `{Service}Service.java` (or `{Service}.java` when the segment already
/// ends with `Service`).  The caller searches `com/shi/common/service`.
pub fn system_common_target(url: &str) -> (r: Result<(String, String), String>)
    ensures
        match (r, system_target(url@)) {
            (Ok(t), Ok(s)) => t.0@ == s.0 && t.1@ == s.1,
            (Err(e), Err(m)) => e@ == m,
            _ => false,
        },
{
    let path = match extract_url_path_preserve_case(url) {
        Some(p) => chars_of(p.as_str()),
        None => {
            return Err(string_of(&lit("URL에서 경로를 추출할 수 없음")));
        },
    };
    let path_lc = lowercase_of(&path);
    if !starts_with_chars(&path_lc, &lit("/system/")) {
        return Err(string_of(&lit("URL이 /system/ 으로 시작하지 않음")));
    }
    let after = if path.len() >= 8 {
        crate::text::slice(&path, 8, path.len())
    } else {
        Vec::new()
    };
    assert(after@ =~= (if path@.len() >= 8 {
        path@.skip(8)
    } else {
        Seq::empty()
    }));
    let rest = trim_end_char_of(&trim_start_char_of(&after, '/'), '/');
    let pieces = split_char_of(&rest, '/');
    let mut segs: Vec<Vec<char>> = Vec::new();
    let mut i: usize = 0;
    while i < pieces.len()
        invariant
            i <= pieces.len(),
            views(segs@) == views(pieces@).take(i as int).filter(|s: Seq<char>| s.len() > 0),
        decreases pieces.len() - i,
    {
        proof {
            let t = views(pieces@).take(i + 1);
            assert(t.drop_last() =~= views(pieces@).take(i as int));
            t.filter_lemma(|s: Seq<char>| s.len() > 0);
            reveal(Seq::filter);
        }
        if pieces[i].len() > 0 {
            segs.push(pieces[i].clone());
        }
        proof {
            assert(views(segs@) =~= views(pieces@).take(i + 1).filter(|s: Seq<char>| s.len() > 0));
        }
        i += 1;
    }
    assert(views(pieces@).take(pieces@.len() as int) =~= views(pieces@));
    if segs.len() < 2 {
        return Err(string_cat(&lit("/system/ 이후 세그먼트가 2개 미만입니다: "), &rest));
    }
    let method = string_of(&segs[segs.len() - 1]);
    let pascal = chars_of(camel_segment_to_pascal_class_stem(string_of(&segs[0]).as_str()).as_str());
    let file = if ends_with_chars(&pascal, &lit("Service")) {
        string_cat(&pascal, &lit(".java"))
    } else {
        string_cat(&pascal, &lit("Service.java"))
    };
    Ok((method, file))
}

/// Whether a line declares the method: it holds `public ` or `protected `
/// and ` {method}(`.
pub open spec fn declares_method(line: Seq<char>, pattern: Seq<char>) -> bool {
    (contains_sub(line, "public "@) && contains_sub(line, pattern)) || (contains_sub(
        line,
        "protected "@,
    ) && contains_sub(line, pattern))
}

/// 1-based number of the first line of `content` that declares the method
/// as `public` or `protected`, or the message the search fails with.
pub open spec fn method_line_of(content: Seq<char>, method_name: Seq<char>) -> Result<u32, Seq<char>> {
    let ls = lines(content);
    let pattern = seq![' '] + method_name + seq!['('];
    if exists|i: int| 0 <= i < ls.len() && declares_method(#[trigger] ls[i], pattern) {
        let i = choose|i: int|
            0 <= i < ls.len() && declares_method(#[trigger] ls[i], pattern) && forall|j: int|
                0 <= j < i ==> !declares_method(#[trigger] ls[j], pattern);
        Ok((i + 1) as u32)
    } else {
        Err("메서드 '"@ + method_name + "'를 파일에서 찾을 수 없음"@)
    }
}

proof fn lemma_first_declaring(ls: Seq<Seq<char>>, pattern: Seq<char>, k: int) -> (m: int)
    requires
        0 <= k < ls.len(),
        declares_method(ls[k], pattern),
    ensures
        0 <= m <= k,
        declares_method(ls[m], pattern),
        forall|j: int| 0 <= j < m ==> !declares_method(#[trigger] ls[j], pattern),
    decreases k,
{
    if exists|j: int| 0 <= j < k && declares_method(#[trigger] ls[j], pattern) {
        let j = choose|j: int| 0 <= j < k && declares_method(#[trigger] ls[j], pattern);
        lemma_first_declaring(ls, pattern, j)
    } else {
        k
    }
}

/// The line found is the first one that declares the method: it declares
/// it (holding `public ` or `protected ` and ` name(`) and no line before
/// it does; the search fails exactly when no line declares it.
pub proof fn law_first_declaring_line(content: Seq<char>, method_name: Seq<char>)
    requires
        lines(content).len() < u32::MAX,
    ensures
        ({
            let ls = lines(content);
            let pattern = seq![' '] + method_name + seq!['('];
            &&& method_line_of(content, method_name) matches Ok(n) ==> 1 <= n <= ls.len()
                && declares_method(ls[n - 1], pattern)
                && forall|j: int| 0 <= j < n - 1 ==> !declares_method(#[trigger] ls[j], pattern)
            &&& method_line_of(content, method_name) is Err <==> forall|i: int| 0 <= i < ls.len() ==> !declares_method(#[trigger] ls[i], pattern)
        }),
{
    let ls = lines(content);
    let pattern = seq![' '] + method_name + seq!['('];
    if exists|i: int| 0 <= i < ls.len() && declares_method(#[trigger] ls[i], pattern) {
        let k = choose|i: int| 0 <= i < ls.len() && declares_method(#[trigger] ls[i], pattern);
        let m = lemma_first_declaring(ls, pattern, k);
        assert(0 <= m < ls.len() && declares_method(ls[m], pattern) && forall|j: int|
            0 <= j < m ==> !declares_method(#[trigger] ls[j], pattern));
        let i = choose|i: int|
            0 <= i < ls.len() && declares_method(#[trigger] ls[i], pattern) && forall|j: int|
                0 <= j < i ==> !declares_method(#[trigger] ls[j], pattern);
        assert(i == m) by {
            if i < m {
                assert(!declares_method(ls[i], pattern));
            }
            if m < i {
                assert(!declares_method(ls[m], pattern));
            }
        }
    }
}

/// The first line (1-based) of a Java source text that declares the method
/// as `public` or `protected`, or the message when there is none.
pub fn find_public_or_protected_method_line(content: &str, method_name: &str) -> (r: Result<u32, String>)
    ensures
        match (r, method_line_of(content@, method_name@)) {
            (Ok(n), Ok(m)) => n == m,
            (Err(e), Err(m)) => e@ == m,
            _ => false,
        },
{
    let name = chars_of(method_name);
    let pattern = concat(&concat(&vec![' '], &name), &vec!['(']);
    assert(pattern@ =~= seq![' '] + method_name@ + seq!['(']);
    let ls = lines_of(&chars_of(content));
    let public_ = lit("public ");
    let protected_ = lit("protected ");
    let mut i: usize = 0;
    while i < ls.len()
        invariant
            i <= ls.len(),
            views(ls@) == lines(content@),
            public_@ == "public "@,
            pattern@ == seq![' '] + method_name@ + seq!['('],
            protected_@ == "protected "@,
            forall|j: int| 0 <= j < i ==> !declares_method(#[trigger] views(ls@)[j], pattern@),
        decreases ls.len() - i,
    {
        let line = &ls[i];
        assert(views(ls@)[i as int] == line@);
        let has = contains_chars(line, &pattern);
        let is_pub = contains_chars(line, &public_) && has;
        let is_prot = contains_chars(line, &protected_) && has;
        if is_pub || is_prot {
            proof {
                let ls2 = views(ls@);
                let w = choose|k: int|
                    0 <= k < ls2.len() && declares_method(#[trigger] ls2[k], pattern@) && forall|
                        j: int,
                    | 0 <= j < k ==> !declares_method(#[trigger] ls2[j], pattern@);
                assert(declares_method(ls2[i as int], pattern@));
                if w < i {
                } else if w > i {
                }
                assert(w == i);
                assert(ls2 == lines(content@));
                assert(pattern@ == seq![' '] + method_name@ + seq!['(']);
                assert(method_line_of(content@, method_name@) == Ok::<u32, Seq<char>>((w + 1) as u32));
            }
            let n: usize = i + 1;
            assert(n as u32 == (i as int + 1) as u32);
            return Ok(n as u32);
        }
        i += 1;
    }
    let m = concat(&lit("메서드 '"), &name);
    Err(string_cat(&m, &lit("'를 파일에서 찾을 수 없음")))
}

/// Whether two file names are the same when case is ignored.
pub fn names_match_ignoring_case(a: &str, b: &str) -> (r: bool)
    ensures
        r == (lowercase(a@) == lowercase(b@)),
{
    eq_chars(&lowercase_of(&chars_of(a)), &lowercase_of(&chars_of(b)))
}

} // verus!
