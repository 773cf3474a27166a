//! An index from `.do` / `.dox` URLs to the Spring MVC handler methods that
//! `@Controller` / `@RestController` classes map them to with
//! `@RequestMapping` and its relatives.
use vstd::prelude::*;

use crate::order::{lex_lt, sort_dedup, sorted_distinct_of, sorted_set};
use crate::parser::java_locator::{url_core, url_core_of, JavaServiceLocation};
use crate::regex_search::{
    all_matches, find_all, first_group, first_group_of, group_at, group_text, is_match,
    matches_somewhere, span_hi, span_lo, well_formed_matches, MatchSpans,
};
use crate::text::{
    append_all, before_char, before_char_of, copy_chars, chars_of, concat, contains_chars, contains_sub, ends_with,
    ends_with_chars, eq_chars, find_char, find_char_of, join_lines,
    join_lines_of, lemma_find_char_facts, lines, lines_of, lit, lowercase, lowercase_of, opt_chars,
    opt_str, slice, starts_with, starts_with_chars, string_of, trim, trim_chars, trim_end_char,
    trim_end_char_of, trim_start, trim_start_char, trim_start_char_of, views,
};

verus! {

// ───────────────────────── URL keys ─────────────────────────

/// The path of a URL whose suffix decides whether it is `.do` style: the
/// trimmed URL without host and query (empty for a host with no path).
pub open spec fn suffix_check_path(url: Seq<char>) -> Seq<char> {
    let t = trim(url);
    if starts_with(t, "http://"@) || starts_with(t, "https://"@) {
        let rest = if starts_with(t, "http://"@) {
            t.skip(7)
        } else {
            t.skip(8)
        };
        match find_char(rest, '/') {
            Some(i) => before_char(rest.skip(i), '?'),
            None => Seq::empty(),
        }
    } else {
        before_char(t, '?')
    }
}

/// The URL's path ends with `.do` or `.dox`, whatever the case.
pub open spec fn is_do_style(url: Seq<char>) -> bool {
    let l = lowercase(suffix_check_path(url));
    ends_with(l, ".do"@) || ends_with(l, ".dox"@)
}

/// The lookup key of a URL: its path in lower case, its leading slashes
/// replaced by exactly one `/`.
pub open spec fn url_key(url: Seq<char>) -> Option<Seq<char>> {
    match url_core(url) {
        None => None,
        Some(u) => Some(seq!['/'] + trim_start_char(lowercase(u), '/')),
    }
}

pub fn extract_path_for_suffix_check(url: &str) -> (r: String)
    ensures
        r@ == suffix_check_path(url@),
{
    let t = trim_chars(&chars_of(url));
    let http = lit("http://");
    let https = lit("https://");
    proof {
        reveal_strlit("http://");
        reveal_strlit("https://");
    }
    if starts_with_chars(&t, &http) || starts_with_chars(&t, &https) {
        let rest = if starts_with_chars(&t, &http) {
            slice(&t, 7, t.len())
        } else {
            slice(&t, 8, t.len())
        };
        assert(rest@ =~= (if starts_with(t@, "http://"@) {
            t@.skip(7)
        } else {
            t@.skip(8)
        }));
        match find_char_of(&rest, '/') {
            Some(i) => {
                proof {
                    lemma_find_char_facts(rest@, '/');
                }
                let tail = slice(&rest, i, rest.len());
                assert(tail@ =~= rest@.skip(i as int));
                string_of(&before_char_of(&tail, '?'))
            },
            None => string_of(&Vec::new()),
        }
    } else {
        string_of(&before_char_of(&t, '?'))
    }
}

/// Whether the URL is `.do` / `.dox` style (case ignored).
pub fn is_spring_do_style_url(url: &str) -> (r: bool)
    ensures
        r == is_do_style(url@),
{
    let p = extract_path_for_suffix_check(url);
    let l = lowercase_of(&chars_of(p.as_str()));
    ends_with_chars(&l, &lit(".do")) || ends_with_chars(&l, &lit(".dox"))
}

/// The lookup key: path only, lower case, one leading `/`, no query.
/// The key of an ASCII URL is its own ASCII lower-case form.
pub fn normalize_url_key(url: &str) -> (r: Option<String>)
    ensures
        opt_str(r) == url_key(url@),
        crate::text::all_ascii(url@) ==> (r matches Some(k) ==> k@ == crate::text::ascii_lowercase(k@)),
{
    match url_core_of(url) {
        None => None,
        Some(u) => {
            proof {
                if crate::text::all_ascii(url@) {
                    crate::parser::java_locator::lemma_url_core_ascii(url@);
                }
            }
            let l = lowercase_of(&u);
            let slash: Vec<char> = vec!['/'];
            assert(slash@ =~= seq!['/']);
            let k = concat(&slash, &trim_start_char_of(&l, '/'));
            proof {
                if crate::text::all_ascii(url@) {
                    let t = trim_start_char(l@, '/');
                    crate::text::lemma_drop_front_shape(l@, crate::text::eq_pred('/'));
                    assert forall|i: int| 0 <= i < k@.len() implies crate::text::ascii_lower(#[trigger] k@[i]) == k@[i] by {
                        if i > 0 {
                            let j = l@.len() - t.len() + i - 1;
                            assert(k@[i] == l@[j]);
                            assert(l@[j] == crate::text::ascii_lower(u@[j]));
                            crate::text::lemma_ascii_lower_fixed(u@[j]);
                        }
                    }
                    assert(k@ =~= crate::text::ascii_lowercase(k@));
                }
            }
            Some(string_of(&k))
        },
    }
}

// ───────────────────────── scanners ─────────────────────────

/// The index at which the block comment whose body starts at `k` is
/// closed by `*/`, or where the text runs out.
pub open spec fn comment_close(cs: Seq<char>, k: int) -> int
    decreases cs.len() - k,
{
    if k < 0 || k + 1 >= cs.len() || (cs[k] == '*' && cs[k + 1] == '/') {
        k
    } else {
        comment_close(cs, k + 1)
    }
}

/// Where scanning resumes after a block comment whose body starts at `k`.
pub open spec fn after_comment(cs: Seq<char>, k: int) -> int {
    if comment_close(cs, k) + 2 <= cs.len() {
        comment_close(cs, k) + 2
    } else {
        cs.len() as int
    }
}

pub proof fn lemma_comment_close_ge(cs: Seq<char>, k: int)
    ensures
        comment_close(cs, k) >= k,
    decreases cs.len() - k,
{
    if !(k < 0 || k + 1 >= cs.len() || (cs[k] == '*' && cs[k + 1] == '/')) {
        lemma_comment_close_ge(cs, k + 1);
    }
}

/// Net count of `{` minus `}` from index `i` of a line, where the scan is
/// inside a string or character literal opened by `quote` (and just after a
/// backslash when `esc`).  Braces in literals and comments do not count, and
/// a `//` ends the line.
pub open spec fn brace_scan(cs: Seq<char>, i: int, quote: Option<char>, esc: bool) -> int
    decreases cs.len() - i,
{
    if i < 0 || i >= cs.len() {
        0
    } else {
        let c = cs[i];
        match quote {
            Some(q) => if esc {
                brace_scan(cs, i + 1, quote, false)
            } else if c == '\\' {
                brace_scan(cs, i + 1, quote, true)
            } else if c == q {
                brace_scan(cs, i + 1, None, false)
            } else {
                brace_scan(cs, i + 1, quote, false)
            },
            None => if c == '/' && i + 1 < cs.len() && cs[i + 1] == '/' {
                0
            } else if c == '/' && i + 1 < cs.len() && cs[i + 1] == '*' {
                proof {
                    lemma_comment_close_ge(cs, i + 2);
                }
                brace_scan(cs, after_comment(cs, i + 2), None, false)
            } else if c == '"' || c == '\'' {
                brace_scan(cs, i + 1, Some(c), false)
            } else if c == '{' {
                1 + brace_scan(cs, i + 1, None, false)
            } else if c == '}' {
                brace_scan(cs, i + 1, None, false) - 1
            } else {
                brace_scan(cs, i + 1, None, false)
            },
        }
    }
}

pub proof fn lemma_brace_scan_bound(cs: Seq<char>, i: int, quote: Option<char>, esc: bool)
    requires
        0 <= i,
    ensures
        -(cs.len() - i) <= brace_scan(cs, i, quote, esc) <= cs.len() - i || i >= cs.len(),
        i >= cs.len() ==> brace_scan(cs, i, quote, esc) == 0,
    decreases cs.len() - i,
{
    if i < cs.len() {
        let c = cs[i];
        match quote {
            Some(q) => if esc {
                lemma_brace_scan_bound(cs, i + 1, quote, false);
            } else if c == '\\' {
                lemma_brace_scan_bound(cs, i + 1, quote, true);
            } else if c == q {
                lemma_brace_scan_bound(cs, i + 1, None, false);
            } else {
                lemma_brace_scan_bound(cs, i + 1, quote, false);
            },
            None => if c == '/' && i + 1 < cs.len() && cs[i + 1] == '/' {
            } else if c == '/' && i + 1 < cs.len() && cs[i + 1] == '*' {
                lemma_comment_close_ge(cs, i + 2);
                lemma_brace_scan_bound(cs, after_comment(cs, i + 2), None, false);
            } else {
                lemma_brace_scan_bound(cs, i + 1, if c == '"' || c == '\'' { Some(c) } else { None }, false);
            },
        }
    }
}

/// End (exclusive) of a block comment whose body starts at `k` (`k >= 2`).
fn skip_block_comment(cs: &Vec<char>, k: usize) -> (r: usize)
    requires
        k <= cs.len(),
    ensures
        r == after_comment(cs@, k as int),
        r > k || r == cs.len(),
        r <= cs.len(),
{
    let mut j = k;
    while j < cs.len() && cs.len() - j >= 2 && !(cs[j] == '*' && cs[j + 1] == '/')
        invariant
            k <= j <= cs.len(),
            comment_close(cs@, k as int) == comment_close(cs@, j as int),
        decreases cs.len() - j,
    {
        j += 1;
    }
    proof {
        lemma_comment_close_ge(cs@, k as int);
    }
    if j < cs.len() && cs.len() - j >= 2 {
        j + 2
    } else {
        cs.len()
    }
}

/// `{` minus `}` on a line of Java, ignoring literals and comments.
pub fn brace_delta_line(line: &str) -> (r: i32)
    requires
        line@.len() <= i32::MAX,
    ensures
        r == brace_scan(line@, 0, None, false),
{
    brace_delta_chars(&chars_of(line))
}

/// `{` minus `}` on a line of Java given as characters.
pub fn brace_delta_chars(line: &Vec<char>) -> (r: i32)
    requires
        line@.len() <= i32::MAX,
    ensures
        r == brace_scan(line@, 0, None, false),
{
    let cs = copy_chars(line);
    let mut delta: i32 = 0;
    let mut quote: Option<char> = None;
    let mut esc = false;
    let mut i: usize = 0;
    proof {
        lemma_brace_scan_bound(cs@, 0, None, false);
    }
    while i < cs.len()
        invariant
            i <= cs.len(),
            cs@ == line@,
            cs@.len() <= i32::MAX,
            -(i as int) <= delta <= i,
            quote is None ==> !esc,
            delta + brace_scan(cs@, i as int, quote, esc) == brace_scan(cs@, 0, None, false),
        decreases cs.len() - i,
    {
        let c = cs[i];
        match quote {
            Some(q) => {
                if esc {
                    esc = false;
                } else if c == '\\' {
                    esc = true;
                } else if c == q {
                    quote = None;
                }
                i += 1;
            },
            None => {
                if c == '/' && i + 1 < cs.len() && cs[i + 1] == '/' {
                    return delta;
                } else if c == '/' && i + 1 < cs.len() && cs[i + 1] == '*' {
                    i = skip_block_comment(&cs, i + 2);
                } else if c == '"' || c == '\'' {
                    quote = Some(c);
                    i += 1;
                } else if c == '{' {
                    delta += 1;
                    i += 1;
                } else if c == '}' {
                    delta -= 1;
                    i += 1;
                } else {
                    i += 1;
                }
            },
        }
    }
    delta
}

/// The first index of a `'\n'` at or after `k` (or the end).
pub open spec fn next_newline(cs: Seq<char>, k: int) -> int
    decreases cs.len() - k,
{
    if k < 0 || k >= cs.len() || cs[k] == '\n' {
        k
    } else {
        next_newline(cs, k + 1)
    }
}

pub proof fn lemma_next_newline_ge(cs: Seq<char>, k: int)
    ensures
        next_newline(cs, k) >= k,
        k <= cs.len() ==> next_newline(cs, k) <= cs.len(),
    decreases cs.len() - k,
{
    if !(k < 0 || k >= cs.len() || cs[k] == '\n') {
        lemma_next_newline_ge(cs, k + 1);
    }
}

/// The index of the `)` that closes the `(` opened before index 0, scanning
/// from `i` with `depth` parentheses open; literals and comments are skipped.
pub open spec fn paren_scan(cs: Seq<char>, i: int, depth: int, quote: Option<char>, esc: bool) -> Option<int>
    decreases cs.len() - i,
{
    if i < 0 || i >= cs.len() {
        None
    } else {
        let c = cs[i];
        match quote {
            Some(q) => if esc {
                paren_scan(cs, i + 1, depth, quote, false)
            } else if c == '\\' {
                paren_scan(cs, i + 1, depth, quote, true)
            } else if c == q {
                paren_scan(cs, i + 1, depth, None, false)
            } else {
                paren_scan(cs, i + 1, depth, quote, false)
            },
            None => if c == '"' || c == '\'' {
                paren_scan(cs, i + 1, depth, Some(c), false)
            } else if c == '/' && i + 1 < cs.len() && cs[i + 1] == '/' {
                proof {
                    lemma_next_newline_ge(cs, i + 2);
                }
                paren_scan(cs, next_newline(cs, i + 2), depth, None, false)
            } else if c == '/' && i + 1 < cs.len() && cs[i + 1] == '*' {
                proof {
                    lemma_comment_close_ge(cs, i + 2);
                }
                paren_scan(cs, after_comment(cs, i + 2), depth, None, false)
            } else if c == '(' {
                paren_scan(cs, i + 1, depth + 1, None, false)
            } else if c == ')' {
                if depth - 1 == 0 {
                    Some(i)
                } else {
                    paren_scan(cs, i + 1, depth - 1, None, false)
                }
            } else {
                paren_scan(cs, i + 1, depth, None, false)
            },
        }
    }
}

/// `cs` starts just after a `(`: the index of the `)` that closes it.
pub open spec fn matching_paren(cs: Seq<char>) -> Option<int> {
    paren_scan(cs, 0, 1, None, false)
}

pub proof fn lemma_paren_scan_in_range(cs: Seq<char>, i: int, depth: int, quote: Option<char>, esc: bool)
    requires
        0 <= i,
    ensures
        paren_scan(cs, i, depth, quote, esc) matches Some(k) ==> i <= k < cs.len(),
    decreases cs.len() - i,
{
    if i < cs.len() {
        let c = cs[i];
        match quote {
            Some(q) => if esc {
                lemma_paren_scan_in_range(cs, i + 1, depth, quote, false);
            } else if c == '\\' {
                lemma_paren_scan_in_range(cs, i + 1, depth, quote, true);
            } else if c == q {
                lemma_paren_scan_in_range(cs, i + 1, depth, None, false);
            } else {
                lemma_paren_scan_in_range(cs, i + 1, depth, quote, false);
            },
            None => if c == '"' || c == '\'' {
                lemma_paren_scan_in_range(cs, i + 1, depth, Some(c), false);
            } else if c == '/' && i + 1 < cs.len() && cs[i + 1] == '/' {
                lemma_next_newline_ge(cs, i + 2);
                lemma_paren_scan_in_range(cs, next_newline(cs, i + 2), depth, None, false);
            } else if c == '/' && i + 1 < cs.len() && cs[i + 1] == '*' {
                lemma_comment_close_ge(cs, i + 2);
                lemma_paren_scan_in_range(cs, after_comment(cs, i + 2), depth, None, false);
            } else if c == '(' {
                lemma_paren_scan_in_range(cs, i + 1, depth + 1, None, false);
            } else if c == ')' {
                if depth - 1 != 0 {
                    lemma_paren_scan_in_range(cs, i + 1, depth - 1, None, false);
                }
            } else {
                lemma_paren_scan_in_range(cs, i + 1, depth, None, false);
            },
        }
    }
}

/// `s` starts just after a `(`: the index of the `)` that closes it (that
/// `)` itself excluded from what precedes it).
pub fn find_matching_paren_end(s: &Vec<char>) -> (r: Option<usize>)
    ensures
        match r {
            Some(k) => matching_paren(s@) == Some(k as int),
            None => matching_paren(s@) is None,
        },
{
    let mut depth: u128 = 1;
    let mut quote: Option<char> = None;
    let mut esc = false;
    let mut i: usize = 0;
    while i < s.len()
        invariant
            i <= s.len(),
            1 <= depth <= i + 1,
            quote is None ==> !esc,
            paren_scan(s@, i as int, depth as int, quote, esc) == matching_paren(s@),
        decreases s.len() - i,
    {
        let c = s[i];
        match quote {
            Some(q) => {
                if esc {
                    esc = false;
                } else if c == '\\' {
                    esc = true;
                } else if c == q {
                    quote = None;
                }
                i += 1;
            },
            None => {
                if c == '"' || c == '\'' {
                    quote = Some(c);
                    i += 1;
                } else if c == '/' && i + 1 < s.len() && s[i + 1] == '/' {
                    let mut j = i + 2;
                    while j < s.len() && s[j] != '\n'
                        invariant
                            i + 2 <= j <= s.len(),
                            next_newline(s@, j as int) == next_newline(s@, i + 2),
                        decreases s.len() - j,
                    {
                        j += 1;
                    }
                    i = j;
                } else if c == '/' && i + 1 < s.len() && s[i + 1] == '*' {
                    i = skip_block_comment(s, i + 2);
                } else if c == '(' {
                    depth += 1;
                    i += 1;
                } else if c == ')' {
                    depth -= 1;
                    if depth == 0 {
                        return Some(i);
                    }
                    i += 1;
                } else {
                    i += 1;
                }
            },
        }
    }
    None
}

// ───────────────────────── path literals ─────────────────────────

pub open spec fn escaped_char(c: char) -> char {
    if c == 'n' {
        '\n'
    } else if c == 't' {
        '\t'
    } else if c == 'r' {
        '\r'
    } else {
        c
    }
}

/// A Java string literal's body with `\n`, `\t`, `\r` and `\x` (any other
/// `x`) resolved; a backslash at the very end is dropped.
pub open spec fn unescape(s: Seq<char>) -> Seq<char>
    decreases s.len(),
{
    if s.len() == 0 {
        Seq::empty()
    } else if s[0] == '\\' {
        if s.len() == 1 {
            Seq::empty()
        } else {
            seq![escaped_char(s[1])] + unescape(s.skip(2))
        }
    } else {
        seq![s[0]] + unescape(s.drop_first())
    }
}

pub fn unescape_java_string(s: &Vec<char>) -> (r: Vec<char>)
    ensures
        r@ == unescape(s@),
{
    let mut r: Vec<char> = Vec::new();
    let mut i: usize = 0;
    assert(s@.skip(0) =~= s@);
    while i < s.len()
        invariant
            i <= s.len(),
            r@ + unescape(s@.skip(i as int)) == unescape(s@),
        decreases s.len() - i,
    {
        let ghost rest = s@.skip(i as int);
        if s[i] == '\\' {
            if i + 1 < s.len() {
                let n = s[i + 1];
                let e = if n == 'n' {
                    '\n'
                } else if n == 't' {
                    '\t'
                } else if n == 'r' {
                    '\r'
                } else {
                    n
                };
                r.push(e);
                assert(rest.skip(2) =~= s@.skip(i + 2));
                i += 2;
            } else {
                assert(unescape(rest) =~= Seq::<char>::empty());
                i += 1;
            }
        } else {
            r.push(s[i]);
            assert(rest.drop_first() =~= s@.skip(i + 1));
            i += 1;
        }
        assert(r@ + unescape(s@.skip(i as int)) =~= unescape(s@));
    }
    assert(unescape(s@.skip(i as int)) =~= Seq::<char>::empty());
    assert(r@ + Seq::<char>::empty() =~= r@);
    r
}

/// A mapping path literal: not empty, and ending with `.do` / `.dox` (any
/// case), or starting with `/` or `${`.
pub open spec fn is_path_literal(s: Seq<char>) -> bool {
    &&& s.len() > 0
    &&& {
        ||| ends_with(lowercase(s), ".do"@)
        ||| ends_with(lowercase(s), ".dox"@)
        ||| starts_with(s, "/"@)
        ||| starts_with(s, "${"@)
    }
}

pub fn is_spring_path_literal(s: &Vec<char>) -> (r: bool)
    ensures
        r == is_path_literal(s@),
{
    if s.len() == 0 {
        return false;
    }
    let lower = lowercase_of(s);
    ends_with_chars(&lower, &lit(".do")) || ends_with_chars(&lower, &lit(".dox"))
        || starts_with_chars(s, &lit("/")) || starts_with_chars(s, &lit("${"))
}

/// `/{class}/{method}` with the slashes between them made single.
pub open spec fn joined_path(class_prefix: Seq<char>, method_suffix: Seq<char>) -> Seq<char> {
    let c = trim_end_char(trim(class_prefix), '/');
    let m = trim_start_char(trim(method_suffix), '/');
    if c.len() == 0 {
        seq!['/'] + m
    } else if m.len() == 0 {
        seq!['/'] + trim_start_char(c, '/')
    } else {
        seq!['/'] + trim_start_char(c, '/') + seq!['/'] + m
    }
}

pub fn join_path_segments(class_prefix: &Vec<char>, method_suffix: &Vec<char>) -> (r: Vec<char>)
    ensures
        r@ == joined_path(class_prefix@, method_suffix@),
{
    let c = trim_end_char_of(&trim_chars(class_prefix), '/');
    let m = trim_start_char_of(&trim_chars(method_suffix), '/');
    let slash: Vec<char> = vec!['/'];
    assert(slash@ =~= seq!['/']);
    if c.len() == 0 {
        concat(&slash, &m)
    } else if m.len() == 0 {
        concat(&slash, &trim_start_char_of(&c, '/'))
    } else {
        let a = concat(&slash, &trim_start_char_of(&c, '/'));
        let b = concat(&a, &slash);
        concat(&b, &m)
    }
}

/// The index key of a mapping path: trimmed, lower case, its leading
/// slashes replaced by exactly one `/`; empty when the path is blank.
pub open spec fn path_key(p: Seq<char>) -> Seq<char> {
    if trim(p).len() == 0 {
        Seq::empty()
    } else {
        seq!['/'] + trim_start_char(lowercase(trim(p)), '/')
    }
}

pub fn mapping_path_to_key(p: &Vec<char>) -> (r: Vec<char>)
    ensures
        r@ == path_key(p@),
{
    let s = lowercase_of(&trim_chars(p));
    if s.len() == 0 {
        return s;
    }
    let slash: Vec<char> = vec!['/'];
    assert(slash@ =~= seq!['/']);
    concat(&slash, &trim_start_char_of(&s, '/'))
}

/// Paths one method path gives with each class path (`classes` is never empty).
pub open spec fn combine_one(classes: Seq<Seq<char>>, mp: Seq<char>) -> Seq<Seq<char>>
    decreases classes.len(),
{
    let m = trim(mp);
    if m.len() == 0 {
        Seq::empty()
    } else if classes.len() == 0 {
        if starts_with(m, "/"@) {
            seq![m]
        } else {
            Seq::empty()
        }
    } else {
        let c = classes.last();
        let more = if starts_with(m, "/"@) {
            if c.len() == 0 {
                Seq::empty()
            } else {
                seq![joined_path(c, trim_start_char(m, '/'))]
            }
        } else {
            if c.len() == 0 {
                seq![seq!['/'] + trim_start_char(m, '/')]
            } else {
                seq![joined_path(c, m)]
            }
        };
        combine_one(classes.drop_last(), mp) + more
    }
}

/// All paths the method paths give with the class paths, before sorting.
pub open spec fn combine_all(classes: Seq<Seq<char>>, mps: Seq<Seq<char>>) -> Seq<Seq<char>>
    decreases mps.len(),
{
    if mps.len() == 0 {
        Seq::empty()
    } else {
        combine_all(classes, mps.drop_last()) + combine_one(classes, mps.last())
    }
}

/// The class paths, or one empty path when there are none.
pub open spec fn class_norms(class_paths: Seq<Seq<char>>) -> Seq<Seq<char>> {
    if class_paths.len() == 0 {
        seq![Seq::<char>::empty()]
    } else {
        class_paths
    }
}

fn combine_one_exec(classes: &Vec<Vec<char>>, mp: &Vec<char>, out: &mut Vec<Vec<char>>)
    ensures
        views(final(out)@) == views(old(out)@) + combine_one(views(classes@), mp@),
{
    let m = trim_chars(mp);
    if m.len() == 0 {
        assert(views(out@) =~= views(out@) + Seq::<Seq<char>>::empty());
        return;
    }
    let slash: Vec<char> = vec!['/'];
    assert(slash@ =~= seq!['/']);
    let abs = starts_with_chars(&m, &lit("/"));
    let ghost start = views(out@);
    if abs {
        out.push(m.clone());
    }
    let mut i: usize = 0;
    assert(views(classes@).take(0) =~= Seq::<Seq<char>>::empty());
    assert(views(out@) =~= start + combine_one(views(classes@).take(0), mp@));
    while i < classes.len()
        invariant
            i <= classes.len(),
            m@ == trim(mp@),
            m@.len() > 0,
            abs == starts_with(m@, "/"@),
            slash@ == seq!['/'],
            views(out@) == start + combine_one(views(classes@).take(i as int), mp@),
        decreases classes.len() - i,
    {
        let c = &classes[i];
        let ghost before = views(out@);
        let ghost t = views(classes@).take(i + 1);
        assert(t.drop_last() =~= views(classes@).take(i as int));
        assert(t.last() == c@);
        let ghost mm = trim(mp@);
        let ghost more: Seq<Seq<char>> = if starts_with(mm, "/"@) {
            if c@.len() == 0 {
                Seq::empty()
            } else {
                seq![joined_path(c@, trim_start_char(mm, '/'))]
            }
        } else {
            if c@.len() == 0 {
                seq![seq!['/'] + trim_start_char(mm, '/')]
            } else {
                seq![joined_path(c@, mm)]
            }
        };
        assert(combine_one(t, mp@) == combine_one(t.drop_last(), mp@) + more);
        if abs {
            if c.len() > 0 {
                let j = join_path_segments(c, &trim_start_char_of(&m, '/'));
                out.push(j);
                assert(views(out@) =~= before.push(j@));
            } else {
                assert(views(out@) =~= before);
            }
        } else {
            if c.len() == 0 {
                let j = concat(&slash, &trim_start_char_of(&m, '/'));
                out.push(j);
                assert(views(out@) =~= before.push(j@));
            } else {
                let j = join_path_segments(c, &m);
                out.push(j);
                assert(views(out@) =~= before.push(j@));
            }
        }
        assert(views(out@) =~= start + combine_one(t, mp@));
        i += 1;
    }
    assert(views(classes@).take(classes@.len() as int) =~= views(classes@));
}

/// Full paths from the class-level and method-level mapping paths: a method
/// path that starts with `/` stands for itself and is also joined to each
/// class path; another is joined to each class path (or made absolute when
/// there is none).  Sorted, without repeats.
pub fn combine_class_and_method_paths(class_paths: &Vec<Vec<char>>, method_paths: &Vec<Vec<char>>) -> (r: Vec<Vec<char>>)
    ensures
        sorted_distinct_of(views(r@), combine_all(class_norms(views(class_paths@)), views(method_paths@))),
        views(r@) == sorted_set(combine_all(class_norms(views(class_paths@)), views(method_paths@))),
{
    let classes: Vec<Vec<char>> = if class_paths.len() == 0 {
        let v: Vec<Vec<char>> = vec![Vec::new()];
        assert(views(v@) =~= seq![Seq::<char>::empty()]);
        v
    } else {
        class_paths.clone()
    };
    assert(views(classes@) == class_norms(views(class_paths@)));
    let mut out: Vec<Vec<char>> = Vec::new();
    let mut i: usize = 0;
    assert(views(method_paths@).take(0) =~= Seq::<Seq<char>>::empty());
    assert(views(out@) =~= Seq::<Seq<char>>::empty());
    while i < method_paths.len()
        invariant
            i <= method_paths.len(),
            views(out@) == combine_all(views(classes@), views(method_paths@).take(i as int)),
        decreases method_paths.len() - i,
    {
        let ghost t = views(method_paths@).take(i + 1);
        assert(t.drop_last() =~= views(method_paths@).take(i as int));
        assert(t.last() == method_paths@[i as int]@);
        combine_one_exec(&classes, &method_paths[i], &mut out);
        i += 1;
    }
    assert(views(method_paths@).take(method_paths@.len() as int) =~= views(method_paths@));
    sort_dedup(&out)
}

// ───────────────────────── annotations ─────────────────────────

/// A Spring mapping annotation and its opening parenthesis
/// (a qualified `x.RequestMapping(` matches too).
pub const MAPPING_ANNOTATION_RE: &'static str = r"\b(GetMapping|PostMapping|PutMapping|DeleteMapping|PatchMapping|RequestMapping)\s*\(";

/// `@Controller` or `@RestController`, possibly qualified.
pub const CONTROLLER_RE: &'static str = r"@(?:[\w.]+\.)?(?:Controller|RestController)\b";

/// A class declaration line; group 1 is the class name.
pub const CLASS_DECL_RE: &'static str = r"^\s*(?:public|protected|private)?\s*(?:abstract\s+|static\s+|final\s+|sealed\s+|strictfp\s+)*class\s+(\w+)\b";

/// A public or protected method declaration; group 1 is the method name.
pub const METHOD_DECL_RE: &'static str = r"^\s*(?:public|protected)\s+(?:[\w\[\]<>?,\s.]+\s)+(\w+)\s*\(";

/// `value = "..."` or `path = "..."`; group 1 is the literal's body.
pub const VALUE_STRING_RE: &'static str = r#"(?:value|path)\s*=\s*"((?:[^"\\]|\\.)*)""#;

/// `value = {...}` or `path = {...}`; group 1 is the list's body.
pub const VALUE_LIST_RE: &'static str = r#"(?:value|path)\s*=\s*\{([^}]*)\}"#;

/// A Java string literal; group 1 is its body.
pub const STRING_LITERAL_RE: &'static str = r#""((?:[^"\\]|\\.)*)""#;

/// Unescaped bodies of group `g` of the matches `ms` of `hay` that are path
/// literals, in order.
pub open spec fn literal_paths(hay: Seq<char>, ms: Seq<MatchSpans>, g: int) -> Seq<Seq<char>>
    decreases ms.len(),
{
    if ms.len() == 0 {
        Seq::empty()
    } else {
        let prev = literal_paths(hay, ms.drop_last(), g);
        match group_text(hay, ms.last(), g) {
            Some(t) => if is_path_literal(unescape(t)) {
                prev.push(unescape(t))
            } else {
                prev
            },
            None => prev,
        }
    }
}

/// Path literals among the string literals of `s`.
pub open spec fn brace_list_paths(s: Seq<char>) -> Seq<Seq<char>> {
    literal_paths(s, all_matches(STRING_LITERAL_RE@, s), 1)
}

/// Path literals of the `{...}` lists matched by `ms` in `hay`.
pub open spec fn list_paths(hay: Seq<char>, ms: Seq<MatchSpans>) -> Seq<Seq<char>>
    decreases ms.len(),
{
    if ms.len() == 0 {
        Seq::empty()
    } else {
        let prev = list_paths(hay, ms.drop_last());
        match group_text(hay, ms.last(), 1) {
            Some(t) => prev + brace_list_paths(t),
            None => prev,
        }
    }
}

/// Path literals of an annotation's arguments, before sorting:
/// for `@RequestMapping` first those of `value =` / `path =` (single or
/// listed), then those of every string literal.
pub open spec fn args_paths(inner: Seq<char>, is_request_mapping: bool) -> Seq<Seq<char>> {
    (if is_request_mapping {
        literal_paths(inner, all_matches(VALUE_STRING_RE@, inner), 1) + list_paths(
            inner,
            all_matches(VALUE_LIST_RE@, inner),
        )
    } else {
        Seq::empty()
    }) + literal_paths(inner, all_matches(STRING_LITERAL_RE@, inner), 1)
}

fn collect_literal_paths(hay: &Vec<char>, pattern: &str, out: &mut Vec<Vec<char>>)
    ensures
        views(final(out)@) == views(old(out)@) + literal_paths(hay@, all_matches(pattern@, hay@), 1),
{
    let ms = find_all(pattern, hay);
    collect_literal_paths_from_matches(hay, &ms, out)
}

/// Appends the path literals (unescaped) among the strings whose body is
/// group 1 of the matches `ms` in `hay`.
#[verifier::rlimit(100)]
pub fn collect_literal_paths_from_matches(hay: &Vec<char>, ms: &Vec<Vec<Option<(usize, usize)>>>, out: &mut Vec<Vec<char>>)
    requires
        well_formed_matches(ms@.map_values(|m: Vec<Option<(usize, usize)>>| m@), hay@.len()),
    ensures
        views(final(out)@) == views(old(out)@) + literal_paths(hay@, ms@.map_values(|m: Vec<Option<(usize, usize)>>| m@), 1),
{
    let ghost all = ms@.map_values(|m: Vec<Option<(usize, usize)>>| m@);
    let ghost start = views(out@);
    let mut i: usize = 0;
    assert(all.take(0) =~= Seq::<MatchSpans>::empty());
    assert(views(out@) =~= start + Seq::<Seq<char>>::empty());
    while i < ms.len()
        invariant
            i <= ms.len(),
            ms@.map_values(|m: Vec<Option<(usize, usize)>>| m@) == all,
            well_formed_matches(all, hay@.len()),
            views(out@) == start + literal_paths(hay@, all.take(i as int), 1),
        decreases ms.len() - i,
    {
        let ghost t = all.take(i + 1);
        assert(t.drop_last() =~= all.take(i as int));
        assert(t.last() == ms@[i as int]@);
        let ghost before = views(out@);
        match group_at(hay, ms, i, 1) {
            Some(text) => {
                let u = unescape_java_string(&text);
                if is_spring_path_literal(&u) {
                    out.push(u);
                    assert(views(out@) =~= before.push(u@));
                }
            },
            None => {},
        }
        assert(views(out@) =~= start + literal_paths(hay@, t, 1));
        i += 1;
    }
    assert(all.take(ms@.len() as int) =~= all);
}

/// Path literals among the string literals of a `{...}` list body.
pub fn strings_in_brace_list(s: &Vec<char>) -> (r: Vec<Vec<char>>)
    ensures
        views(r@) == brace_list_paths(s@),
{
    let mut r: Vec<Vec<char>> = Vec::new();
    assert(views(r@) =~= Seq::<Seq<char>>::empty());
    collect_literal_paths(s, STRING_LITERAL_RE, &mut r);
    assert(views(r@) =~= brace_list_paths(s@));
    r
}

fn collect_list_paths(hay: &Vec<char>, out: &mut Vec<Vec<char>>)
    ensures
        views(final(out)@) == views(old(out)@) + list_paths(hay@, all_matches(VALUE_LIST_RE@, hay@)),
{
    let ms = find_all(VALUE_LIST_RE, hay);
    collect_list_paths_from_matches(hay, &ms, out)
}

/// Appends the path literals of each `{...}` list body that `ms` matched
/// (group 1) in `hay`.
#[verifier::rlimit(40)]
pub fn collect_list_paths_from_matches(hay: &Vec<char>, ms: &Vec<Vec<Option<(usize, usize)>>>, out: &mut Vec<Vec<char>>)
    requires
        well_formed_matches(ms@.map_values(|m: Vec<Option<(usize, usize)>>| m@), hay@.len()),
    ensures
        views(final(out)@) == views(old(out)@) + list_paths(hay@, ms@.map_values(|m: Vec<Option<(usize, usize)>>| m@)),
{
    let ghost all = ms@.map_values(|m: Vec<Option<(usize, usize)>>| m@);
    let ghost start = views(out@);
    let mut i: usize = 0;
    assert(all.take(0) =~= Seq::<MatchSpans>::empty());
    assert(views(out@) =~= start + Seq::<Seq<char>>::empty());
    while i < ms.len()
        invariant
            i <= ms.len(),
            ms@.map_values(|m: Vec<Option<(usize, usize)>>| m@) == all,
            well_formed_matches(all, hay@.len()),
            views(out@) == start + list_paths(hay@, all.take(i as int)),
        decreases ms.len() - i,
    {
        let ghost t = all.take(i + 1);
        assert(t.drop_last() =~= all.take(i as int));
        assert(t.last() == ms@[i as int]@);
        let ghost before = views(out@);
        match group_at(hay, ms, i, 1) {
            Some(text) => {
                let more = strings_in_brace_list(&text);
                append_all(out, &more);
            },
            None => {
                assert(views(out@) =~= before + Seq::<Seq<char>>::empty());
            },
        }
        assert(views(out@) =~= start + list_paths(hay@, t));
        i += 1;
    }
    assert(all.take(ms@.len() as int) =~= all);
}

/// Path literals of an annotation's argument text, sorted, without repeats.
pub fn extract_string_paths_from_args(inner: &Vec<char>, is_request_mapping: bool) -> (r: Vec<Vec<char>>)
    ensures
        views(r@) == sorted_set(args_paths(inner@, is_request_mapping)),
{
    let mut out: Vec<Vec<char>> = Vec::new();
    assert(views(out@) =~= Seq::<Seq<char>>::empty());
    if is_request_mapping {
        collect_literal_paths(inner, VALUE_STRING_RE, &mut out);
        collect_list_paths(inner, &mut out);
    }
    collect_literal_paths(inner, STRING_LITERAL_RE, &mut out);
    assert(views(out@) =~= args_paths(inner@, is_request_mapping));
    sort_dedup(&out)
}

/// Paths of the mapping annotations that `ms` matched in `block`, before
/// sorting: each annotation's arguments up to its closing parenthesis.
pub open spec fn annotation_paths_of(block: Seq<char>, ms: Seq<MatchSpans>) -> Seq<Seq<char>>
    decreases ms.len(),
{
    if ms.len() == 0 {
        Seq::empty()
    } else {
        let prev = annotation_paths_of(block, ms.drop_last());
        let m = ms.last();
        let name = match group_text(block, m, 1) {
            Some(n) => n,
            None => "RequestMapping"@,
        };
        let rest = block.skip(span_hi(m[0]) as int);
        match matching_paren(rest) {
            Some(k) => prev + sorted_set(args_paths(rest.take(k), name == "RequestMapping"@)),
            None => prev,
        }
    }
}

/// Paths of all mapping annotations in `block`, sorted, without repeats.
pub open spec fn annotation_paths(block: Seq<char>) -> Seq<Seq<char>> {
    sorted_set(annotation_paths_of(block, all_matches(MAPPING_ANNOTATION_RE@, block)))
}

pub fn extract_paths_from_annotation_block(block: &Vec<char>) -> (r: Vec<Vec<char>>)
    ensures
        views(r@) == annotation_paths(block@),
{
    let ms = find_all(MAPPING_ANNOTATION_RE, block);
    annotation_paths_from_matches(block, &ms)
}

/// The paths of the mapping annotations that `ms` matched in `block`,
/// sorted, without repeats.
pub fn annotation_paths_from_matches(block: &Vec<char>, ms: &Vec<Vec<Option<(usize, usize)>>>) -> (r: Vec<Vec<char>>)
    requires
        well_formed_matches(ms@.map_values(|m: Vec<Option<(usize, usize)>>| m@), block@.len()),
    ensures
        views(r@) == sorted_set(annotation_paths_of(block@, ms@.map_values(|m: Vec<Option<(usize, usize)>>| m@))),
{
    let ghost all = ms@.map_values(|m: Vec<Option<(usize, usize)>>| m@);
    let mut paths: Vec<Vec<char>> = Vec::new();
    let mut i: usize = 0;
    let request_mapping = lit("RequestMapping");
    assert(all.take(0) =~= Seq::<MatchSpans>::empty());
    assert(views(paths@) =~= Seq::<Seq<char>>::empty());
    while i < ms.len()
        invariant
            i <= ms.len(),
            request_mapping@ == "RequestMapping"@,
            ms@.map_values(|m: Vec<Option<(usize, usize)>>| m@) == all,
            well_formed_matches(all, block@.len()),
            views(paths@) == annotation_paths_of(block@, all.take(i as int)),
        decreases ms.len() - i,
    {
        let ghost t = all.take(i + 1);
        assert(t.drop_last() =~= all.take(i as int));
        assert(t.last() == ms@[i as int]@);
        let ghost before = views(paths@);
        let m = &ms[i];
        assert(all[i as int] == m@);
        assert(all[i as int].len() > 0 && all[i as int][0] is Some);
        assert(span_lo(all[i as int][0]) <= span_hi(all[i as int][0]) <= block@.len());
        let end = match m[0] {
            Some(sp) => sp.1,
            None => 0,
        };
        let name = match group_at(block, ms, i, 1) {
            Some(n) => n,
            None => request_mapping.clone(),
        };
        let rest = slice(block, end, block.len());
        assert(rest@ =~= block@.skip(end as int));
        match find_matching_paren_end(&rest) {
            Some(k) => {
                proof {
                    lemma_paren_scan_in_range(rest@, 0, 1, None, false);
                }
                let inner = slice(&rest, 0, k);
                assert(inner@ =~= rest@.take(k as int));
                let is_rm = eq_chars(&name, &request_mapping);
                let more = extract_string_paths_from_args(&inner, is_rm);
                append_all(&mut paths, &more);
            },
            None => {},
        }
        assert(views(paths@) =~= annotation_paths_of(block@, t));
        i += 1;
    }
    assert(all.take(ms@.len() as int) =~= all);
    sort_dedup(&paths)
}

/// Whether the text holds a mapping annotation.
pub fn has_mapping_annotation(block: &Vec<char>) -> (r: bool)
    ensures
        r == is_match(MAPPING_ANNOTATION_RE@, block@),
{
    matches_somewhere(MAPPING_ANNOTATION_RE, block)
}

/// Whether a Java source holds `@Controller` or `@RestController`.
pub fn file_has_controller(content: &Vec<char>) -> (r: bool)
    ensures
        r == is_match(CONTROLLER_RE@, content@),
{
    matches_somewhere(CONTROLLER_RE, content)
}

/// The name a method declaration line declares.
pub fn extract_method_name(line: &Vec<char>) -> (r: Option<Vec<char>>)
    ensures
        opt_chars(r) == first_group(METHOD_DECL_RE@, line@, 1),
{
    first_group_of(METHOD_DECL_RE, line, 1)
}

/// A trimmed line that looks like a method declaration.
pub open spec fn method_like(t: Seq<char>) -> bool {
    (starts_with(t, "public "@) || starts_with(t, "protected "@)) && contains_sub(t, "("@)
        && !contains_sub(t, " class "@)
}

pub fn looks_like_method_line(trimmed: &Vec<char>) -> (r: bool)
    ensures
        r == method_like(trimmed@),
{
    (starts_with_chars(trimmed, &lit("public ")) || starts_with_chars(trimmed, &lit("protected ")))
        && contains_chars(trimmed, &lit("(")) && !contains_chars(trimmed, &lit(" class "))
}

// ───────────────────────── class location ─────────────────────────

/// Number of whitespace characters a line starts with.
pub open spec fn leading_ws(line: Seq<char>) -> int {
    line.len() - trim_start(line).len()
}

/// Line `idx` declares a class and `@Controller` / `@RestController`
/// appears within the 35 lines before it (or on it).
pub open spec fn class_candidate(ls: Seq<Seq<char>>, idx: int) -> bool {
    &&& 0 <= idx < ls.len()
    &&& is_match(CLASS_DECL_RE@, ls[idx])
    &&& is_match(
        CONTROLLER_RE@,
        join_lines(ls.subrange(if idx >= 35 { idx - 35 } else { 0 }, idx + 1)),
    )
}

/// Candidate `idx` is the least indented one, the first among equals.
pub open spec fn best_class_line(ls: Seq<Seq<char>>, idx: int) -> bool {
    &&& class_candidate(ls, idx)
    &&& forall|j: int| #[trigger] class_candidate(ls, j) ==> leading_ws(ls[idx]) <= leading_ws(ls[j])
    &&& forall|j: int| 0 <= j < idx && #[trigger] class_candidate(ls, j) ==> leading_ws(ls[idx]) < leading_ws(ls[j])
}

/// The controller class declaration line of a Java source's lines.
pub open spec fn controller_class_line(ls: Seq<Seq<char>>) -> Option<int> {
    if exists|idx: int| best_class_line(ls, idx) {
        Some(choose|idx: int| best_class_line(ls, idx))
    } else {
        None
    }
}

pub proof fn lemma_best_class_line_unique(ls: Seq<Seq<char>>, a: int, b: int)
    requires
        best_class_line(ls, a),
        best_class_line(ls, b),
    ensures
        a == b,
{
    if a < b {
        assert(class_candidate(ls, a));
    } else if b < a {
        assert(class_candidate(ls, b));
    }
}

/// Number of whitespace characters `v` starts with.
fn leading_ws_count(v: &Vec<char>) -> (r: usize)
    ensures
        r == leading_ws(v@),
{
    let t = crate::text::trim_start_chars(v);
    proof {
        crate::text::lemma_drop_front_len(v@, crate::text::ws_pred());
    }
    v.len() - t.len()
}

pub fn find_controller_class_line(ls: &Vec<Vec<char>>) -> (r: Option<usize>)
    ensures
        match r {
            Some(i) => controller_class_line(views(ls@)) == Some(i as int),
            None => controller_class_line(views(ls@)) is None,
        },
{
    let ghost lv = views(ls@);
    let mut best: Option<(usize, usize)> = None;
    let mut idx: usize = 0;
    while idx < ls.len()
        invariant
            idx <= ls.len(),
            lv == views(ls@),
            match best {
                Some((b, lead)) => {
                    &&& b < idx
                    &&& class_candidate(lv, b as int)
                    &&& lead == leading_ws(lv[b as int])
                    &&& forall|j: int| 0 <= j < idx && #[trigger] class_candidate(lv, j) ==> leading_ws(lv[b as int]) <= leading_ws(lv[j])
                    &&& forall|j: int| 0 <= j < b && #[trigger] class_candidate(lv, j) ==> leading_ws(lv[b as int]) < leading_ws(lv[j])
                },
                None => forall|j: int| 0 <= j < idx ==> !#[trigger] class_candidate(lv, j),
            },
        decreases ls.len() - idx,
    {
        let line = &ls[idx];
        assert(lv[idx as int] == line@);
        let mut cand = matches_somewhere(CLASS_DECL_RE, line);
        if cand {
            let lo = if idx >= 35 {
                idx - 35
            } else {
                0
            };
            let window = join_lines_of(ls, lo, idx + 1);
            cand = matches_somewhere(CONTROLLER_RE, &window);
        }
        assert(cand == class_candidate(lv, idx as int));
        if cand {
            let lead = leading_ws_count(line);
            match best {
                Some((b, bl)) => {
                    if lead < bl {
                        best = Some((idx, lead));
                    }
                },
                None => {
                    best = Some((idx, lead));
                },
            }
        }
        idx += 1;
    }
    match best {
        Some((b, _)) => {
            proof {
                assert(best_class_line(lv, b as int));
                let w = choose|k: int| best_class_line(lv, k);
                lemma_best_class_line_unique(lv, w, b as int);
            }
            Some(b)
        },
        None => {
            assert(!exists|k: int| best_class_line(lv, k));
            None
        },
    }
}

/// Going back from the line before `i`, over blank, comment, `import` and
/// `package` lines, the first index of the run of annotation lines met
/// (`start` if none).
pub open spec fn annotation_run_start(ls: Seq<Seq<char>>, i: int, start: int) -> int
    decreases i,
{
    if i <= 0 || i > ls.len() {
        start
    } else {
        let t = trim(ls[i - 1]);
        if t.len() == 0 || starts_with(t, "//"@) || starts_with(t, "*"@) || starts_with(t, "import "@)
            || starts_with(t, "package "@) {
            annotation_run_start(ls, i - 1, start)
        } else if starts_with(t, "@"@) {
            annotation_run_start(ls, i - 1, i - 1)
        } else {
            start
        }
    }
}

/// A trimmed line that the search for class annotations passes over:
/// blank, a comment, an `import` or a `package` line.
pub open spec fn passed_over(t: Seq<char>) -> bool {
    t.len() == 0 || starts_with(t, "//"@) || starts_with(t, "*"@) || starts_with(t, "import "@)
        || starts_with(t, "package "@)
}

/// Line `j` is an annotation line and every line after it up to (not
/// including) line `i` is an annotation line or passed over.
pub open spec fn annotation_reaches(ls: Seq<Seq<char>>, j: int, i: int) -> bool {
    &&& 0 <= j < i
    &&& starts_with(trim(ls[j]), "@"@)
    &&& forall|k: int| j < k < i ==> passed_over(trim(#[trigger] ls[k])) || starts_with(trim(ls[k]), "@"@)
}

/// Going up from line `i`, the run of annotation lines (with blank,
/// comment, `import` and `package` lines between them) starts at its
/// topmost annotation line: that is the result when the run has an
/// annotation, and `start` when it has none.
pub proof fn law_annotation_run_start(ls: Seq<Seq<char>>, i: int, start: int)
    requires
        i <= ls.len(),
    ensures
        (exists|j: int| annotation_reaches(ls, j, i)) ==> annotation_reaches(ls, annotation_run_start(ls, i, start), i)
            && forall|j: int| annotation_reaches(ls, j, i) ==> annotation_run_start(ls, i, start) <= j,
        !(exists|j: int| annotation_reaches(ls, j, i)) ==> annotation_run_start(ls, i, start) == start,
    decreases i,
{
    reveal_strlit("@");
    reveal_strlit("//");
    reveal_strlit("*");
    reveal_strlit("import ");
    reveal_strlit("package ");
    if i > 0 {
        let t = trim(ls[i - 1]);
        if passed_over(t) {
            assert(!starts_with(t, "@"@)) by {
                if starts_with(t, "@"@) {
                    assert(t.take(1)[0] == '@');
                    if starts_with(t, "//"@) {
                        assert(t.take(2)[0] == '/');
                    }
                    if starts_with(t, "*"@) {
                        assert(t.take(1)[0] == '*');
                    }
                    if starts_with(t, "import "@) {
                        assert(t.take(7)[0] == 'i');
                    }
                    if starts_with(t, "package "@) {
                        assert(t.take(8)[0] == 'p');
                    }
                }
            }
            law_annotation_run_start(ls, i - 1, start);
            assert forall|j: int| annotation_reaches(ls, j, i) implies annotation_reaches(ls, j, i - 1) by {
                assert(j != i - 1);
            }
            assert forall|j: int| annotation_reaches(ls, j, i - 1) implies annotation_reaches(ls, j, i) by {}
            if exists|j: int| #[trigger] annotation_reaches(ls, j, i - 1) {
                let w = choose|j: int| #[trigger] annotation_reaches(ls, j, i - 1);
                assert(annotation_reaches(ls, w, i));
            }
        } else if starts_with(t, "@"@) {
            law_annotation_run_start(ls, i - 1, i - 1);
            assert(annotation_reaches(ls, i - 1, i));
            assert forall|j: int| annotation_reaches(ls, j, i) && j < i - 1 implies annotation_reaches(ls, j, i - 1) by {}
            assert forall|j: int| annotation_reaches(ls, j, i - 1) implies annotation_reaches(ls, j, i) by {}
        } else {
            assert forall|j: int| !annotation_reaches(ls, j, i) by {
                if annotation_reaches(ls, j, i) {
                    if j < i - 1 {
                        assert(passed_over(trim(ls[i - 1])) || starts_with(trim(ls[i - 1]), "@"@));
                    }
                }
            }
        }
    }
}

/// The class annotation window starts at the topmost annotation line of
/// the run right above the class declaration (blank, comment, `import` and
/// `package` lines between them passed over), so the class-level paths do
/// not depend on the order of the class annotations.
pub proof fn law_class_window_whole_run(ls: Seq<Seq<char>>, class_line: int)
    requires
        0 <= class_line < ls.len(),
    ensures
        (exists|j: int| annotation_reaches(ls, j, class_line)) ==> annotation_reaches(ls, class_window_start(ls, class_line), class_line)
            && forall|j: int| annotation_reaches(ls, j, class_line) ==> class_window_start(ls, class_line) <= j,
{
    let s0 = if class_line >= 40 { class_line - 40 } else { 0 };
    let s1 = skip_lines(ls, s0, class_line, import_pred());
    let s2 = skip_lines(ls, s1, class_line, blank_or_comment_pred());
    law_annotation_run_start(ls, class_line, s2);
}

/// From `start`, the first line before `end` whose trimmed text fails `p`.
pub open spec fn skip_lines(ls: Seq<Seq<char>>, start: int, end: int, p: spec_fn(Seq<char>) -> bool) -> int
    decreases end - start,
{
    if start < end && 0 <= start < ls.len() && p(trim(ls[start])) {
        skip_lines(ls, start + 1, end, p)
    } else {
        start
    }
}

pub open spec fn import_line(t: Seq<char>) -> bool {
    starts_with(t, "import "@)
}

pub open spec fn blank_or_comment_line(t: Seq<char>) -> bool {
    t.len() == 0 || starts_with(t, "//"@)
}

pub open spec fn import_pred() -> spec_fn(Seq<char>) -> bool {
    |t: Seq<char>| import_line(t)
}

pub open spec fn blank_or_comment_pred() -> spec_fn(Seq<char>) -> bool {
    |t: Seq<char>| blank_or_comment_line(t)
}

/// First line of the window of class-level annotations above `class_line`.
pub open spec fn class_window_start(ls: Seq<Seq<char>>, class_line: int) -> int {
    let s0 = if class_line >= 40 { class_line - 40 } else { 0 };
    let s1 = skip_lines(ls, s0, class_line, import_pred());
    let s2 = skip_lines(ls, s1, class_line, blank_or_comment_pred());
    annotation_run_start(ls, class_line, s2)
}

fn blank_or_comment_of(line: &Vec<char>, comment: &Vec<char>) -> (r: bool)
    requires
        comment@ == "//"@,
    ensures
        r == blank_or_comment_line(trim(line@)),
{
    let t = trim_chars(line);
    t.len() == 0 || starts_with_chars(&t, comment)
}

pub fn class_annotation_window_start(ls: &Vec<Vec<char>>, class_line: usize) -> (r: usize)
    requires
        class_line < ls.len(),
    ensures
        r == class_window_start(views(ls@), class_line as int),
        r <= class_line,
{
    let ghost lv = views(ls@);
    let mut start: usize = if class_line >= 40 {
        class_line - 40
    } else {
        0
    };
    let import_ = lit("import ");
    let ghost p1 = import_pred();
    let ghost s0 = start as int;
    while start < class_line && starts_with_chars(&trim_chars(&ls[start]), &import_)
        invariant
            start <= class_line < ls.len(),
            lv == views(ls@),
            import_@ == "import "@,
            p1 == import_pred(),
            skip_lines(lv, start as int, class_line as int, p1) == skip_lines(lv, s0, class_line as int, p1),
        decreases class_line - start,
    {
        assert(lv[start as int] == ls@[start as int]@);
        assert(p1(trim(lv[start as int])));
        start += 1;
    }
    assert(start < class_line ==> lv[start as int] == ls@[start as int]@);
    assert(start < class_line ==> !p1(trim(lv[start as int])));
    let ghost s1 = start as int;
    let ghost p2 = blank_or_comment_pred();
    let comment = lit("//");
    while start < class_line && blank_or_comment_of(&ls[start], &comment)
        invariant
            start <= class_line < ls.len(),
            lv == views(ls@),
            comment@ == "//"@,
            p2 == blank_or_comment_pred(),
            skip_lines(lv, start as int, class_line as int, p2) == skip_lines(lv, s1, class_line as int, p2),
        decreases class_line - start,
    {
        assert(lv[start as int] == ls@[start as int]@);
        assert(p2(trim(lv[start as int])));
        start += 1;
    }
    assert(start < class_line ==> lv[start as int] == ls@[start as int]@);
    assert(start < class_line ==> !p2(trim(lv[start as int])));
    let ghost s2 = start as int;
    let mut i = class_line;
    let star = lit("*");
    let package_ = lit("package ");
    let at = lit("@");
    let mut done = false;
    let ghost target = annotation_run_start(lv, class_line as int, s2);
    while i > 0 && !done
        invariant
            i <= class_line < ls.len(),
            start <= class_line,
            lv == views(ls@),
            comment@ == "//"@,
            import_@ == "import "@,
            star@ == "*"@,
            package_@ == "package "@,
            at@ == "@"@,
            done ==> start == target,
            !done ==> annotation_run_start(lv, i as int, start as int) == target,
        decreases i,
    {
        i -= 1;
        let t = trim_chars(&ls[i]);
        assert(lv[i as int] == ls@[i as int]@);
        if t.len() == 0 || starts_with_chars(&t, &comment) || starts_with_chars(&t, &star)
            || starts_with_chars(&t, &import_) || starts_with_chars(&t, &package_) {
        } else if starts_with_chars(&t, &at) {
            start = i;
        } else {
            done = true;
        }
    }
    start
}

/// One past the first line in `[class_line, class_line + 15)` holding `{`.
pub open spec fn body_start_line(ls: Seq<Seq<char>>, class_line: int) -> Option<int> {
    let end = if ls.len() < class_line + 15 { ls.len() as int } else { class_line + 15 };
    if exists|li: int| class_line <= li < end && contains_sub(#[trigger] ls[li], "{"@) {
        let li = choose|li: int|
            class_line <= li < end && contains_sub(#[trigger] ls[li], "{"@) && forall|j: int|
                class_line <= j < li ==> !contains_sub(#[trigger] ls[j], "{"@);
        Some(li + 1)
    } else {
        None
    }
}

pub fn find_class_body_start_line(ls: &Vec<Vec<char>>, class_line: usize) -> (r: Option<usize>)
    requires
        class_line < ls.len(),
    ensures
        match r {
            Some(b) => body_start_line(views(ls@), class_line as int) == Some(b as int),
            None => body_start_line(views(ls@), class_line as int) is None,
        },
{
    let ghost lv = views(ls@);
    let end = if ls.len() - class_line < 15 {
        ls.len()
    } else {
        class_line + 15
    };
    let brace = lit("{");
    let mut li = class_line;
    while li < end
        invariant
            class_line <= li <= end <= ls.len(),
            end == (if ls.len() < class_line + 15 { ls.len() as int } else { class_line + 15 }),
            lv == views(ls@),
            brace@ == "{"@,
            forall|j: int| class_line <= j < li ==> !contains_sub(#[trigger] lv[j], "{"@),
        decreases end - li,
    {
        assert(lv[li as int] == ls@[li as int]@);
        if contains_chars(&ls[li], &brace) {
            proof {
                let w = choose|k: int|
                    class_line <= k < end && contains_sub(#[trigger] lv[k], "{"@) && forall|j: int|
                        class_line <= j < k ==> !contains_sub(#[trigger] lv[j], "{"@);
                assert(contains_sub(lv[li as int], "{"@));
                if w < li {
                } else if w > li {
                }
            }
            return Some(li + 1);
        }
        li += 1;
    }
    None
}

// ───────────────────────── index entries ─────────────────────────

/// An index entry: the key and the (file, method, line) it leads to.
pub type EntryView = (Seq<char>, (Seq<char>, Seq<char>, u32));

pub open spec fn entries_view(s: Seq<(String, JavaServiceLocation)>) -> Seq<EntryView> {
    s.map_values(|e: (String, JavaServiceLocation)| (e.0@, e.1@))
}

/// What entries are compared and told apart by: key, file, method.
pub open spec fn triple(e: EntryView) -> (Seq<char>, Seq<char>, Seq<char>) {
    (e.0, e.1.0, e.1.1)
}

/// Entries ordered by key, then file, then method.
pub open spec fn entry_lt(a: EntryView, b: EntryView) -> bool {
    ||| lex_lt(a.0, b.0)
    ||| (a.0 == b.0 && lex_lt(a.1.0, b.1.0))
    ||| (a.0 == b.0 && a.1.0 == b.1.0 && lex_lt(a.1.1, b.1.1))
}

pub open spec fn entry_order() -> spec_fn(EntryView, EntryView) -> bool {
    |a: EntryView, b: EntryView| entry_lt(a, b)
}

/// No entry before index `i` has the triple of entry `i`.
pub open spec fn first_of_triple(s: Seq<EntryView>, i: int) -> bool {
    forall|j: int| 0 <= j < i ==> triple(#[trigger] s[j]) != triple(s[i])
}

/// `r` holds, sorted by key, file and method, the first entry of `s` with
/// each (key, file, method) (a stable sort followed by `dedup_by`).
pub open spec fn dedup_of(r: Seq<EntryView>, s: Seq<EntryView>) -> bool {
    &&& crate::order::strictly_sorted_by(r, entry_order())
    &&& forall|e: EntryView| r.contains(e) <==> exists|i: int| 0 <= i < s.len() && s[i] == e && first_of_triple(s, i)
}

pub open spec fn deduped(s: Seq<EntryView>) -> Seq<EntryView> {
    choose|r: Seq<EntryView>| dedup_of(r, s)
}

pub proof fn lemma_entry_lt_props()
    ensures
        crate::order::strict_order(entry_order()),
        forall|a: EntryView, b: EntryView|
            entry_lt(a, b) || entry_lt(b, a) || triple(a) == triple(b),
{
    assert forall|a: EntryView| !(#[trigger] entry_order()(a, a)) by {
        crate::order::lemma_lex_irreflexive(a.0);
        crate::order::lemma_lex_irreflexive(a.1.0);
        crate::order::lemma_lex_irreflexive(a.1.1);
    }
    assert forall|a: EntryView, b: EntryView, c: EntryView|
        #[trigger] entry_order()(a, b) && #[trigger] entry_order()(b, c) implies entry_order()(a, c) by {
        if lex_lt(a.0, b.0) && lex_lt(b.0, c.0) {
            crate::order::lemma_lex_transitive(a.0, b.0, c.0);
        }
        if a.0 == b.0 && b.0 == c.0 && lex_lt(a.1.0, b.1.0) && lex_lt(b.1.0, c.1.0) {
            crate::order::lemma_lex_transitive(a.1.0, b.1.0, c.1.0);
        }
        if a.0 == b.0 && b.0 == c.0 && a.1.0 == b.1.0 && b.1.0 == c.1.0 && lex_lt(a.1.1, b.1.1)
            && lex_lt(b.1.1, c.1.1) {
            crate::order::lemma_lex_transitive(a.1.1, b.1.1, c.1.1);
        }
    }
    assert forall|a: EntryView, b: EntryView|
        entry_lt(a, b) || entry_lt(b, a) || triple(a) == triple(b) by {
        crate::order::lemma_lex_total(a.0, b.0);
        crate::order::lemma_lex_total(a.1.0, b.1.0);
        crate::order::lemma_lex_total(a.1.1, b.1.1);
    }
}

proof fn lemma_first_occurrence(s: Seq<EntryView>, j: int) -> (j0: int)
    requires
        0 <= j < s.len(),
    ensures
        0 <= j0 <= j,
        triple(s[j0]) == triple(s[j]),
        first_of_triple(s, j0),
    decreases j,
{
    if first_of_triple(s, j) {
        j
    } else {
        let k = choose|k: int| 0 <= k < j && triple(#[trigger] s[k]) == triple(s[j]);
        lemma_first_occurrence(s, k)
    }
}

fn lex_less_str(a: &String, b: &String) -> (r: bool)
    ensures
        r == lex_lt(a@, b@),
{
    crate::order::lex_less(&chars_of(a.as_str()), &chars_of(b.as_str()))
}

fn entry_less(a: &(String, JavaServiceLocation), b: &(String, JavaServiceLocation)) -> (r: bool)
    ensures
        r == entry_lt((a.0@, a.1@), (b.0@, b.1@)),
{
    if lex_less_str(&a.0, &b.0) {
        return true;
    }
    if a.0 != b.0 {
        return false;
    }
    if lex_less_str(&a.1.java_file, &b.1.java_file) {
        return true;
    }
    if a.1.java_file != b.1.java_file {
        return false;
    }
    lex_less_str(&a.1.method_name, &b.1.method_name)
}

fn copy_entry(e: &(String, JavaServiceLocation)) -> (r: (String, JavaServiceLocation))
    ensures
        (r.0@, r.1@) == (e.0@, e.1@),
{
    (e.0.clone(), e.1.duplicate())
}

/// Sorts the entries by key, file and method and keeps the first of each
/// (key, file, method).
pub fn dedupe_locations_by_key(v: Vec<(String, JavaServiceLocation)>) -> (r: Vec<(String, JavaServiceLocation)>)
    ensures
        dedup_of(entries_view(r@), entries_view(v@)),
        entries_view(r@) == deduped(entries_view(v@)),
{
    let ghost sv = entries_view(v@);
    let mut r: Vec<(String, JavaServiceLocation)> = Vec::new();
    let mut i: usize = 0;
    proof {
        lemma_entry_lt_props();
    }
    assert(entries_view(r@) =~= Seq::<EntryView>::empty());
    while i < v.len()
        invariant
            i <= v.len(),
            sv == entries_view(v@),
            crate::order::strict_order(entry_order()),
            forall|a: EntryView, b: EntryView|
                entry_lt(a, b) || entry_lt(b, a) || triple(a) == triple(b),
            crate::order::strictly_sorted_by(entries_view(r@), entry_order()),
            forall|e: EntryView| entries_view(r@).contains(e) <==> exists|j: int| 0 <= j < i && sv[j] == e && first_of_triple(sv, j),
        decreases v.len() - i,
    {
        let e = &v[i];
        let ghost ev = (e.0@, e.1@);
        assert(sv[i as int] == ev);
        let ghost old_r = entries_view(r@);
        let mut k: usize = 0;
        while k < r.len() && entry_less(&r[k], e)
            invariant
                k <= r.len(),
                entries_view(r@) == old_r,
                ev == (e.0@, e.1@),
                forall|j: int| 0 <= j < k ==> entry_lt(#[trigger] old_r[j], ev),
            decreases r.len() - k,
        {
            assert(old_r[k as int] == (r@[k as int].0@, r@[k as int].1@));
            k += 1;
        }
        assert(k < r.len() ==> old_r[k as int] == (r@[k as int].0@, r@[k as int].1@));
        let dup = k < r.len() && r[k].0 == e.0 && r[k].1.java_file == e.1.java_file
            && r[k].1.method_name == e.1.method_name;
        assert(dup == (k < r.len() && triple(old_r[k as int]) == triple(ev)));
        if dup {
            proof {
                assert(old_r.contains(old_r[k as int]));
                let j = choose|j: int| 0 <= j < i && sv[j] == old_r[k as int] && first_of_triple(sv, j);
                assert forall|x: EntryView| entries_view(r@).contains(x) <==> exists|j: int| 0 <= j < i + 1 && sv[j] == x && first_of_triple(sv, j) by {
                    if exists|j: int| 0 <= j < i + 1 && sv[j] == x && first_of_triple(sv, j) {
                        let jj = choose|jj: int| 0 <= jj < i + 1 && sv[jj] == x && first_of_triple(sv, jj);
                        if jj == i {
                            assert(triple(sv[j]) == triple(sv[i as int]));
                        }
                    }
                }
            }
        } else {
            proof {
                // `ev` is the first entry with its triple
                assert forall|j: int| 0 <= j < i implies triple(#[trigger] sv[j]) != triple(sv[i as int]) by {
                    if triple(sv[j]) == triple(sv[i as int]) {
                        let j0 = lemma_first_occurrence(sv, j);
                        assert(old_r.contains(sv[j0]));
                        let m = choose|m: int| 0 <= m < old_r.len() && old_r[m] == sv[j0];
                        if m < k {
                            assert(entry_lt(old_r[m], ev));
                            assert(entry_order()(ev, ev));
                        } else if m > k {
                            assert(entry_order()(old_r[k as int], old_r[m]));
                            assert(!entry_lt(old_r[k as int], ev));
                            assert(entry_lt(old_r[k as int], ev));
                        }
                    }
                }
                if k < r.len() {
                    assert(entry_lt(ev, old_r[k as int]));
                }
            }
            let c = copy_entry(e);
            r.insert(k, c);
            proof {
                let nr = entries_view(r@);
                assert(nr =~= old_r.insert(k as int, ev));
                assert forall|a: int, b: int| 0 <= a < b < nr.len() implies entry_order()(#[trigger] nr[a], #[trigger] nr[b]) by {
                    if b < k {
                    } else if b == k {
                    } else if a < k {
                        if k < old_r.len() {
                            assert(entry_order()(old_r[a], ev));
                            assert(entry_order()(ev, old_r[k as int]));
                            if b - 1 > k {
                                assert(entry_order()(old_r[k as int], old_r[b - 1]));
                            }
                        }
                    } else if a == k {
                        if b - 1 > k {
                            assert(entry_order()(ev, old_r[k as int]));
                            assert(entry_order()(old_r[k as int], old_r[b - 1]));
                        }
                    } else {
                        assert(entry_order()(old_r[a - 1], old_r[b - 1]));
                    }
                }
                assert forall|x: EntryView| nr.contains(x) <==> exists|j: int| 0 <= j < i + 1 && sv[j] == x && first_of_triple(sv, j) by {
                    if nr.contains(x) {
                        let q = choose|q: int| 0 <= q < nr.len() && nr[q] == x;
                        if q < k {
                            assert(old_r.contains(old_r[q]));
                        } else if q > k {
                            assert(old_r.contains(old_r[q - 1]));
                        } else {
                            assert(sv[i as int] == x && first_of_triple(sv, i as int));
                        }
                    }
                    if exists|j: int| 0 <= j < i + 1 && sv[j] == x && first_of_triple(sv, j) {
                        let j = choose|j: int| 0 <= j < i + 1 && sv[j] == x && first_of_triple(sv, j);
                        if j < i {
                            assert(old_r.contains(x));
                            let m = choose|m: int| 0 <= m < old_r.len() && old_r[m] == x;
                            if m < k {
                                assert(nr[m] == x);
                            } else {
                                assert(nr[m + 1] == x);
                            }
                        } else {
                            assert(nr[k as int] == x);
                        }
                    }
                }
            }
        }
        i += 1;
    }
    proof {
        let rv = entries_view(r@);
        let w = deduped(sv);
        assert(dedup_of(rv, sv));
        assert(dedup_of(w, sv));
        crate::order::lemma_sorted_unique(rv, w, entry_order());
    }
    r
}

// ───────────────────────── one controller file ─────────────────────────

/// Entries a handler method gives: one per path.
pub open spec fn method_entries(paths: Seq<Seq<char>>, java_file: Seq<char>, mname: Seq<char>, line: u32) -> Seq<EntryView> {
    paths.map_values(|p: Seq<char>| (path_key(p), (java_file, mname, line)))
}

/// What a class-body line at nesting depth 1 does to the pending annotation
/// lines and to the entries: an annotation line is kept; a method
/// declaration line with a mapping annotation among the kept lines adds an
/// entry per combined path (then the kept lines are dropped); a nested
/// class line or a plain statement drops them.
pub open spec fn line_effect(
    class_paths: Seq<Seq<char>>,
    java_file: Seq<char>,
    li: int,
    line: Seq<char>,
    pending: Seq<Seq<char>>,
    out: Seq<EntryView>,
) -> (Seq<Seq<char>>, Seq<EntryView>) {
    let t = trim(line);
    if starts_with(t, "@"@) {
        (pending.push(line), out)
    } else if method_like(t) {
        (
            Seq::empty(),
            match first_group(METHOD_DECL_RE@, line, 1) {
                Some(mname) => {
                    let ann = join_lines(pending);
                    if is_match(MAPPING_ANNOTATION_RE@, ann) {
                        out + method_entries(
                            sorted_set(combine_all(class_norms(class_paths), annotation_paths(ann))),
                            java_file,
                            mname,
                            (li + 1) as u32,
                        )
                    } else {
                        out
                    }
                },
                None => out,
            },
        )
    } else if contains_sub(t, " class "@) && contains_sub(t, "{"@) {
        (Seq::empty(), out)
    } else if t.len() > 0 && !starts_with(t, "//"@) && !starts_with(t, "*"@) && !starts_with(t, "/*"@)
        && ends_with(t, ";"@) && !method_like(t) {
        (Seq::empty(), out)
    } else {
        (pending, out)
    }
}

/// The entries the class body gives from line `li` on, at brace depth
/// `depth`; the scan stops after the line that closes the class.
pub open spec fn body_scan(
    ls: Seq<Seq<char>>,
    class_paths: Seq<Seq<char>>,
    java_file: Seq<char>,
    li: int,
    depth: int,
    pending: Seq<Seq<char>>,
    out: Seq<EntryView>,
) -> Seq<EntryView>
    decreases ls.len() - li,
{
    if li < 0 || li >= ls.len() {
        out
    } else {
        let step = if depth == 1 {
            line_effect(class_paths, java_file, li, ls[li], pending, out)
        } else {
            (pending, out)
        };
        let d2 = depth + brace_scan(ls[li], 0, None, false);
        if d2 < 1 {
            step.1
        } else {
            body_scan(ls, class_paths, java_file, li + 1, d2, step.0, step.1)
        }
    }
}

/// The index entries of one Java source, sorted and without repeats.
pub open spec fn index_entries(java_file: Seq<char>, content: Seq<char>) -> Seq<EntryView> {
    let ls = lines(content);
    match controller_class_line(ls) {
        None => Seq::empty(),
        Some(cl) => {
            let class_paths = annotation_paths(join_lines(ls.subrange(class_window_start(ls, cl), cl + 1)));
            match body_start_line(ls, cl) {
                None => Seq::empty(),
                Some(b) => deduped(body_scan(ls, class_paths, java_file, b, 1, Seq::empty(), Seq::empty())),
            }
        },
    }
}

/// Appends the entries of a handler method declared on line `li` (from 0)
/// whose mapping annotations give `method_paths`: one per path combined
/// with the class paths, keyed by its lookup key.
pub fn push_handler_entries(
    class_paths: &Vec<Vec<char>>,
    method_paths: &Vec<Vec<char>>,
    java_file: &String,
    li: usize,
    mname: &Vec<char>,
    out: &mut Vec<(String, JavaServiceLocation)>,
)
    requires
        li < usize::MAX,
    ensures
        entries_view(final(out)@) == entries_view(old(out)@) + method_entries(
            sorted_set(combine_all(class_norms(views(class_paths@)), views(method_paths@))),
            java_file@,
            mname@,
            (li as int + 1) as u32,
        ),
{
    let combined = combine_class_and_method_paths(class_paths, method_paths);
    let n: usize = li + 1;
    let line_no = n as u32;
    assert(line_no == (li as int + 1) as u32);
    let ghost start = entries_view(out@);
    let ghost cv = views(combined@);
    let mut k: usize = 0;
    assert(entries_view(out@) =~= start + method_entries(cv.take(0), java_file@, mname@, line_no));
    while k < combined.len()
        invariant
            k <= combined.len(),
            cv == views(combined@),
            entries_view(out@) == start + method_entries(cv.take(k as int), java_file@, mname@, line_no),
        decreases combined.len() - k,
    {
        let key = string_of(&mapping_path_to_key(&combined[k]));
        let loc = JavaServiceLocation {
            java_file: java_file.clone(),
            method_name: string_of(mname),
            method_line: line_no,
        };
        let ghost before = entries_view(out@);
        out.push((key, loc));
        assert(entries_view(out@) =~= before.push((path_key(cv[k as int]), (java_file@, mname@, line_no))));
        assert(cv.take(k + 1) =~= cv.take(k as int).push(cv[k as int]));
        assert(method_entries(cv.take(k + 1), java_file@, mname@, line_no) =~= method_entries(cv.take(k as int), java_file@, mname@, line_no).push((path_key(cv[k as int]), (java_file@, mname@, line_no))));
        assert(entries_view(out@) =~= start + method_entries(cv.take(k + 1), java_file@, mname@, line_no));
        k += 1;
    }
    assert(cv.take(combined@.len() as int) =~= cv);
}

fn apply_line(
    class_paths: &Vec<Vec<char>>,
    java_file: &String,
    li: usize,
    line: &Vec<char>,
    pending: &mut Vec<Vec<char>>,
    out: &mut Vec<(String, JavaServiceLocation)>,
)
    requires
        li < usize::MAX,
    ensures
        (views(final(pending)@), entries_view(final(out)@)) == line_effect(
            views(class_paths@),
            java_file@,
            li as int,
            line@,
            views(old(pending)@),
            entries_view(old(out)@),
        ),
{
    let t = trim_chars(line);
    if starts_with_chars(&t, &lit("@")) {
        pending.push(copy_chars(line));
        assert(views(pending@) =~= views(old(pending)@).push(line@));
        return;
    }
    if looks_like_method_line(&t) {
        match extract_method_name(line) {
            Some(mname) => {
                let ann = join_lines_of(pending, 0, pending.len());
                assert(views(pending@).subrange(0, pending@.len() as int) =~= views(pending@));
                if has_mapping_annotation(&ann) {
                    let method_paths = extract_paths_from_annotation_block(&ann);
                    push_handler_entries(class_paths, &method_paths, java_file, li, &mname, out);
                }
            },
            None => {},
        }
        pending.clear();
        assert(views(pending@) =~= Seq::<Seq<char>>::empty());
        return;
    }
    if contains_chars(&t, &lit(" class ")) && contains_chars(&t, &lit("{")) {
        pending.clear();
        assert(views(pending@) =~= Seq::<Seq<char>>::empty());
        return;
    }
    if t.len() > 0 && !starts_with_chars(&t, &lit("//")) && !starts_with_chars(&t, &lit("*"))
        && !starts_with_chars(&t, &lit("/*")) && ends_with_chars(&t, &lit(";"))
        && !looks_like_method_line(&t) {
        pending.clear();
        assert(views(pending@) =~= Seq::<Seq<char>>::empty());
    }
}

pub proof fn lemma_lines_bounded(s: Seq<char>)
    ensures
        forall|i: int| 0 <= i < lines(s).len() ==> (#[trigger] lines(s)[i]).len() <= s.len(),
    decreases s.len(),
{
    if s.len() > 0 {
        crate::text::lemma_find_char_facts(s, '\n');
        match find_char(s, '\n') {
            Some(i) => {
                lemma_lines_bounded(s.skip(i + 1));
                let l = lines(s);
                assert forall|k: int| 0 <= k < l.len() implies (#[trigger] l[k]).len() <= s.len() by {
                    if k > 0 {
                        assert(l[k] == lines(s.skip(i + 1))[k - 1]);
                    }
                }
            },
            None => {},
        }
    }
}

/// The index entries of one Java source: for the controller class, each
/// handler method's mapping paths (combined with the class's), as keys.
pub fn index_java_file(java_file: &str, content: &str) -> (r: Vec<(String, JavaServiceLocation)>)
    requires
        content@.len() <= i32::MAX,
    ensures
        entries_view(r@) == index_entries(java_file@, content@),
{
    let ls = lines_of(&chars_of(content));
    let ghost lv = views(ls@);
    proof {
        lemma_lines_bounded(content@);
    }
    let cl = match find_controller_class_line(&ls) {
        None => {
            let r: Vec<(String, JavaServiceLocation)> = Vec::new();
            assert(entries_view(r@) =~= Seq::<EntryView>::empty());
            return r;
        },
        Some(c) => c,
    };
    assert(cl < ls.len()) by {
        let w = choose|k: int| best_class_line(lv, k);
        assert(best_class_line(lv, w));
    }
    let start = class_annotation_window_start(&ls, cl);
    let block = join_lines_of(&ls, start, cl + 1);
    let class_paths = extract_paths_from_annotation_block(&block);
    let body = match find_class_body_start_line(&ls, cl) {
        None => {
            let r: Vec<(String, JavaServiceLocation)> = Vec::new();
            assert(entries_view(r@) =~= Seq::<EntryView>::empty());
            return r;
        },
        Some(b) => b,
    };
    assert(body <= ls.len()) by {
        let end = if lv.len() < cl + 15 { lv.len() as int } else { cl + 15 };
        let w = choose|li: int|
            cl <= li < end && contains_sub(#[trigger] lv[li], "{"@) && forall|j: int|
                cl <= j < li ==> !contains_sub(#[trigger] lv[j], "{"@);
    }
    let jf = string_of(&chars_of(java_file));
    let ghost cp = views(class_paths@);
    let mut out: Vec<(String, JavaServiceLocation)> = Vec::new();
    let mut pending: Vec<Vec<char>> = Vec::new();
    let mut depth: i128 = 1;
    let mut li = body;
    let ghost target = body_scan(lv, cp, java_file@, body as int, 1, Seq::empty(), Seq::empty());
    assert(views(pending@) =~= Seq::<Seq<char>>::empty());
    assert(entries_view(out@) =~= Seq::<EntryView>::empty());
    while li < ls.len()
        invariant
            body <= li <= ls.len(),
            lv == views(ls@),
            cp == views(class_paths@),
            jf@ == java_file@,
            forall|i: int| 0 <= i < lv.len() ==> (#[trigger] lv[i]).len() <= content@.len(),
            content@.len() <= i32::MAX,
            1 <= depth <= 1 + (li - body) * 2147483647,
            lv == lines(content@),
            controller_class_line(lv) == Some(cl as int),
            class_window_start(lv, cl as int) == start as int,
            cp == annotation_paths(join_lines(lv.subrange(start as int, cl + 1))),
            body_start_line(lv, cl as int) == Some(body as int),
            target == body_scan(lv, cp, java_file@, body as int, 1, Seq::empty(), Seq::empty()),
            body_scan(lv, cp, java_file@, li as int, depth as int, views(pending@), entries_view(out@)) == target,
        decreases ls.len() - li,
    {
        let line = &ls[li];
        assert(lv[li as int] == line@);
        let ghost step = if depth == 1 {
            line_effect(cp, java_file@, li as int, lv[li as int], views(pending@), entries_view(out@))
        } else {
            (views(pending@), entries_view(out@))
        };
        if depth == 1 {
            apply_line(&class_paths, &jf, li, line, &mut pending, &mut out);
        }
        assert((views(pending@), entries_view(out@)) == step);
        let d = brace_delta_chars(line);
        depth = depth + d as i128;
        if depth < 1 {
            let r = dedupe_locations_by_key(out);
            proof {
                assert(target == step.1);
                lemma_index_entries_parts(java_file@, content@, cl as int, start as int, cp, body as int);
            }
            return r;
        }
        li += 1;
    }
    let r = dedupe_locations_by_key(out);
    proof {
        assert(target == entries_view(out@));
        lemma_index_entries_parts(java_file@, content@, cl as int, start as int, cp, body as int);
    }
    r
}

proof fn lemma_index_entries_parts(java_file: Seq<char>, content: Seq<char>, cl: int, start: int, cp: Seq<Seq<char>>, body: int)
    requires
        controller_class_line(lines(content)) == Some(cl),
        class_window_start(lines(content), cl) == start,
        cp == annotation_paths(join_lines(lines(content).subrange(start, cl + 1))),
        body_start_line(lines(content), cl) == Some(body),
    ensures
        index_entries(java_file, content) == deduped(body_scan(lines(content), cp, java_file, body, 1, Seq::empty(), Seq::empty())),
{
}

// ───────────────────────── the index ─────────────────────────

/// The index map after adding one entry: its location goes at the end of
/// its key's list.
pub open spec fn add_entry(m: Map<Seq<char>, Seq<(Seq<char>, Seq<char>, u32)>>, e: EntryView) -> Map<
    Seq<char>,
    Seq<(Seq<char>, Seq<char>, u32)>,
> {
    m.insert(e.0, if m.contains_key(e.0) { m[e.0].push(e.1) } else { seq![e.1] })
}

pub open spec fn add_entries(m: Map<Seq<char>, Seq<(Seq<char>, Seq<char>, u32)>>, es: Seq<EntryView>) -> Map<
    Seq<char>,
    Seq<(Seq<char>, Seq<char>, u32)>,
>
    decreases es.len(),
{
    if es.len() == 0 {
        m
    } else {
        add_entry(add_entries(m, es.drop_last()), es.last())
    }
}

/// The index of a list of (path, text) Java sources, in order: the
/// entries of each source that holds a controller annotation.
pub open spec fn indexed(files: Seq<(Seq<char>, Seq<char>)>) -> Map<Seq<char>, Seq<(Seq<char>, Seq<char>, u32)>>
    decreases files.len(),
{
    if files.len() == 0 {
        Map::empty()
    } else {
        let m = indexed(files.drop_last());
        let f = files.last();
        if is_match(CONTROLLER_RE@, f.1) {
            add_entries(m, index_entries(f.0, f.1))
        } else {
            m
        }
    }
}

/// Outcome of looking a URL up.
#[derive(Debug, Clone)]
pub enum SpringLookupError {
    NotFound,
    Ambiguous(Vec<JavaServiceLocation>),
}

/// Outcome of a lookup, as values.
pub enum LookupView {
    Found((Seq<char>, Seq<char>, u32)),
    NotFound,
    Ambiguous(Seq<(Seq<char>, Seq<char>, u32)>),
}

/// The outcome a list of handlers gives: none, the one, or all of them.
pub open spec fn classify(v: Seq<(Seq<char>, Seq<char>, u32)>) -> LookupView {
    if v.len() == 0 {
        LookupView::NotFound
    } else if v.len() == 1 {
        LookupView::Found(v[0])
    } else {
        LookupView::Ambiguous(v)
    }
}

/// The handler(s) the index gives a URL: by its key, or (rarely) by the key
/// without leading slashes.
pub open spec fn lookup_of(m: Map<Seq<char>, Seq<(Seq<char>, Seq<char>, u32)>>, url: Seq<char>) -> LookupView {
    match url_key(url) {
        None => LookupView::NotFound,
        Some(k) => if m.contains_key(k) {
            classify(m[k])
        } else {
            let alt = trim_start_char(k, '/');
            if alt != k && m.contains_key(alt) {
                classify(m[alt])
            } else {
                LookupView::NotFound
            }
        },
    }
}

pub open spec fn locs_view(v: Seq<JavaServiceLocation>) -> Seq<(Seq<char>, Seq<char>, u32)> {
    v.map_values(|l: JavaServiceLocation| l@)
}

pub open spec fn lookup_result_view(r: Result<JavaServiceLocation, SpringLookupError>) -> LookupView {
    match r {
        Ok(l) => LookupView::Found(l@),
        Err(SpringLookupError::NotFound) => LookupView::NotFound,
        Err(SpringLookupError::Ambiguous(v)) => LookupView::Ambiguous(locs_view(v@)),
    }
}

/// Normalized URL key → the handlers mapped to it.
#[derive(Debug)]
pub struct SpringMappingIndex {
    keys: Vec<String>,
    buckets: Vec<Vec<JavaServiceLocation>>,
}

impl SpringMappingIndex {
    #[verifier::type_invariant]
    spec fn well_formed(&self) -> bool {
        &&& self.keys.len() == self.buckets.len()
        &&& forall|i: int, j: int| 0 <= i < j < self.keys.len() ==> (#[trigger] self.keys@[i])@ != (#[trigger] self.keys@[j])@
    }

    pub closed spec fn view(&self) -> Map<Seq<char>, Seq<(Seq<char>, Seq<char>, u32)>> {
        Map::new(
            |k: Seq<char>| exists|i: int| 0 <= i < self.keys.len() && (#[trigger] self.keys@[i])@ == k,
            |k: Seq<char>| {
                let i = choose|i: int| 0 <= i < self.keys.len() && (#[trigger] self.keys@[i])@ == k;
                locs_view(self.buckets@[i]@)
            },
        )
    }

    pub fn empty() -> (r: Self)
        ensures
            r.view() == Map::<Seq<char>, Seq<(Seq<char>, Seq<char>, u32)>>::empty(),
    {
        let r = SpringMappingIndex { keys: Vec::new(), buckets: Vec::new() };
        assert(r.view() =~= Map::<Seq<char>, Seq<(Seq<char>, Seq<char>, u32)>>::empty());
        r
    }

    fn position(&self, key: &String) -> (r: Option<usize>)
        ensures
            match r {
                Some(i) => i < self.keys.len() && self.keys@[i as int]@ == key@,
                None => forall|i: int| 0 <= i < self.keys.len() ==> (#[trigger] self.keys@[i])@ != key@,
            },
    {
        let mut i: usize = 0;
        while i < self.keys.len()
            invariant
                i <= self.keys.len(),
                forall|j: int| 0 <= j < i ==> (#[trigger] self.keys@[j])@ != key@,
            decreases self.keys.len() - i,
        {
            if self.keys[i] == *key {
                return Some(i);
            }
            i += 1;
        }
        None
    }

    proof fn lemma_view_at(&self, i: int)
        requires
            self.well_formed(),
            0 <= i < self.keys.len(),
        ensures
            self.view().contains_key(self.keys@[i]@),
            self.view()[self.keys@[i]@] == locs_view(self.buckets@[i]@),
    {
        let k = self.keys@[i]@;
        let w = choose|w: int| 0 <= w < self.keys.len() && (#[trigger] self.keys@[w])@ == k;
        assert(self.keys@[i]@ == k);
        if w != i {
            if w < i {
                assert(self.keys@[w]@ != self.keys@[i]@);
            } else {
                assert(self.keys@[i]@ != self.keys@[w]@);
            }
        }
    }

    /// The index with the location added at the end of the key's list.
    fn with_entry(self, key: String, loc: JavaServiceLocation) -> (r: Self)
        ensures
            r.view() == add_entry(self.view(), (key@, loc@)),
    {
        proof {
            use_type_invariant(&self);
        }
        let ghost old_self = self;
        let ghost old_view = self.view();
        let pos = self.position(&key);
        let SpringMappingIndex { mut keys, mut buckets } = self;
        match pos {
            Some(i) => {
                proof {
                    old_self.lemma_view_at(i as int);
                }
                let mut b = buckets.remove(i);
                let ghost ob = b@;
                b.push(loc);
                buckets.insert(i, b);
                let r = SpringMappingIndex { keys, buckets };
                proof {
                    assert(r.buckets@ =~= old_self.buckets@.update(i as int, b));
                    assert(r.well_formed());
                    r.lemma_view_at(i as int);
                    assert(locs_view(b@) =~= locs_view(ob).push(loc@));
                    assert forall|k: Seq<char>| k != key@ && #[trigger] r.view().contains_key(k) implies old_view.contains_key(k) && r.view()[k] == old_view[k] by {
                        let j = choose|j: int| 0 <= j < r.keys.len() && (#[trigger] r.keys@[j])@ == k;
                        r.lemma_view_at(j);
                        old_self.lemma_view_at(j);
                    }
                    assert forall|k: Seq<char>| k != key@ && #[trigger] old_view.contains_key(k) implies r.view().contains_key(k) by {
                        let j = choose|j: int| 0 <= j < r.keys.len() && (#[trigger] r.keys@[j])@ == k;
                        r.lemma_view_at(j);
                    }
                    assert(r.view() =~= add_entry(old_view, (key@, loc@)));
                }
                r
            },
            None => {
                let ghost n = keys.len() as int;
                keys.push(key);
                let mut b: Vec<JavaServiceLocation> = Vec::new();
                b.push(loc);
                buckets.push(b);
                let r = SpringMappingIndex { keys, buckets };
                proof {
                    assert(r.keys@ == old_self.keys@.push(key));
                    assert(r.well_formed());
                    r.lemma_view_at(n);
                    assert(locs_view(b@) =~= seq![loc@]);
                    assert(!old_view.contains_key(key@));
                    assert forall|k: Seq<char>| k != key@ && #[trigger] r.view().contains_key(k) implies old_view.contains_key(k) && r.view()[k] == old_view[k] by {
                        let j = choose|j: int| 0 <= j < r.keys.len() && (#[trigger] r.keys@[j])@ == k;
                        r.lemma_view_at(j);
                        old_self.lemma_view_at(j);
                    }
                    assert forall|k: Seq<char>| k != key@ && #[trigger] old_view.contains_key(k) implies r.view().contains_key(k) by {
                        let j = choose|j: int| 0 <= j < old_self.keys.len() && (#[trigger] old_self.keys@[j])@ == k;
                        assert(r.keys@[j] == old_self.keys@[j]);
                    }
                    assert(r.view() =~= add_entry(old_view, (key@, loc@)));
                }
                r
            },
        }
    }

    fn bucket_result(&self, i: usize) -> (r: Result<JavaServiceLocation, SpringLookupError>)
        requires
            i < self.keys.len(),
        ensures
            lookup_result_view(r) == classify(self.view()[self.keys@[i as int]@]),
    {
        proof {
            use_type_invariant(self);
            self.lemma_view_at(i as int);
        }
        let b = &self.buckets[i];
        if b.len() == 0 {
            Err(SpringLookupError::NotFound)
        } else if b.len() == 1 {
            Ok(b[0].duplicate())
        } else {
            let mut v: Vec<JavaServiceLocation> = Vec::new();
            let mut k: usize = 0;
            while k < b.len()
                invariant
                    k <= b.len(),
                    locs_view(v@) == locs_view(b@).take(k as int),
                decreases b.len() - k,
            {
                let ghost before = locs_view(v@);
                v.push(b[k].duplicate());
                assert(locs_view(v@) =~= before.push(b@[k as int]@));
                assert(locs_view(b@).take(k + 1) =~= locs_view(b@).take(k as int).push(b@[k as int]@));
                assert(locs_view(v@) =~= locs_view(b@).take(k + 1));
                k += 1;
            }
            assert(locs_view(b@).take(b@.len() as int) =~= locs_view(b@));
            Err(SpringLookupError::Ambiguous(v))
        }
    }

    /// The handler a service URL maps to.
    pub fn lookup(&self, service_url: &str) -> (r: Result<JavaServiceLocation, SpringLookupError>)
        ensures
            lookup_result_view(r) == lookup_of(self.view(), service_url@),
    {
        proof {
            use_type_invariant(self);
        }
        let key = match normalize_url_key(service_url) {
            None => {
                return Err(SpringLookupError::NotFound);
            },
            Some(k) => k,
        };
        match self.position(&key) {
            Some(i) => {
                proof {
                    self.lemma_view_at(i as int);
                }
                return self.bucket_result(i);
            },
            None => {
                assert(!self.view().contains_key(key@));
            },
        }
        let kc = chars_of(key.as_str());
        let alt_c = trim_start_char_of(&kc, '/');
        let alt = string_of(&alt_c);
        if !eq_chars(&alt_c, &kc) {
            match self.position(&alt) {
                Some(i) => {
                    proof {
                        self.lemma_view_at(i as int);
                    }
                    return self.bucket_result(i);
                },
                None => {
                    assert(!self.view().contains_key(alt@));
                },
            }
        }
        Err(SpringLookupError::NotFound)
    }
}

fn add_all(index: SpringMappingIndex, entries: Vec<(String, JavaServiceLocation)>) -> (r: SpringMappingIndex)
    ensures
        r.view() == add_entries(index.view(), entries_view(entries@)),
{
    let ghost start = index.view();
    let ghost ev = entries_view(entries@);
    let mut index = index;
    let mut i: usize = 0;
    assert(ev.take(0) =~= Seq::<EntryView>::empty());
    while i < entries.len()
        invariant
            i <= entries.len(),
            ev == entries_view(entries@),
            index.view() == add_entries(start, ev.take(i as int)),
        decreases entries.len() - i,
    {
        let e = &entries[i];
        assert(ev.take(i + 1).drop_last() =~= ev.take(i as int));
        assert(ev.take(i + 1).last() == (e.0@, e.1@));
        index = index.with_entry(e.0.clone(), e.1.duplicate());
        i += 1;
    }
    assert(ev.take(entries@.len() as int) =~= ev);
    index
}

pub open spec fn sources_view(files: Seq<(String, String)>) -> Seq<(Seq<char>, Seq<char>)> {
    files.map_values(|f: (String, String)| (f.0@, f.1@))
}

/// The index of the given Java sources (path and text of each, in the
/// order the source tree is walked).
pub fn build_spring_mapping_index_from_sources(files: &Vec<(String, String)>) -> (r: SpringMappingIndex)
    requires
        forall|i: int| 0 <= i < files.len() ==> (#[trigger] files@[i]).1@.len() <= i32::MAX,
    ensures
        r.view() == indexed(sources_view(files@)),
{
    let mut index = SpringMappingIndex::empty();
    let ghost fv = sources_view(files@);
    let mut i: usize = 0;
    assert(fv.take(0) =~= Seq::<(Seq<char>, Seq<char>)>::empty());
    while i < files.len()
        invariant
            i <= files.len(),
            fv == sources_view(files@),
            forall|j: int| 0 <= j < files.len() ==> (#[trigger] files@[j]).1@.len() <= i32::MAX,
            index.view() == indexed(fv.take(i as int)),
        decreases files.len() - i,
    {
        let f = &files[i];
        assert(fv.take(i + 1).drop_last() =~= fv.take(i as int));
        assert(fv.take(i + 1).last() == (f.0@, f.1@));
        let content = chars_of(f.1.as_str());
        if file_has_controller(&content) {
            let es = index_java_file(f.0.as_str(), f.1.as_str());
            index = add_all(index, es);
        }
        i += 1;
    }
    assert(fv.take(files@.len() as int) =~= fv);
    index
}

pub open spec fn sources_fit(files: Seq<(String, String)>) -> bool {
    forall|i: int| 0 <= i < files.len() ==> (#[trigger] files[i]).1@.len() <= i32::MAX
}

/// The index of `root/src/java`, given the `.java` files read below it (in
/// the order walked); `None` when that folder is missing, which is an error.
pub fn build_spring_mapping_index(java_root: &str, sources: Option<&Vec<(String, String)>>) -> (r: Result<SpringMappingIndex, String>)
    requires
        sources matches Some(files) ==> sources_fit(files@),
    ensures
        sources is None ==> (r matches Err(e) && e@ == "Java 소스 경로가 없습니다: "@ + java_root@),
        sources matches Some(files) ==> (r matches Ok(ix) && ix.view() == indexed(sources_view(files@))),
{
    match sources {
        None => Err(string_of(&concat(&lit("Java 소스 경로가 없습니다: "), &chars_of(java_root)))),
        Some(files) => Ok(build_spring_mapping_index_from_sources(files)),
    }
}

/// As `build_spring_mapping_index`, with an empty index when the folder is
/// missing.
pub fn try_build_spring_mapping_index(sources: Option<&Vec<(String, String)>>) -> (r: SpringMappingIndex)
    requires
        sources matches Some(files) ==> sources_fit(files@),
    ensures
        sources is None ==> r.view() == Map::<Seq<char>, Seq<(Seq<char>, Seq<char>, u32)>>::empty(),
        sources matches Some(files) ==> r.view() == indexed(sources_view(files@)),
{
    match sources {
        None => SpringMappingIndex::empty(),
        Some(files) => build_spring_mapping_index_from_sources(files),
    }
}

// ───────────────────────── laws of the keys ─────────────────────────

/// A lookup key starts with exactly one `/`.
pub proof fn law_url_key_one_slash(url: Seq<char>)
    ensures
        url_key(url) matches Some(k) ==> k.len() >= 1 && k[0] == '/' && (k.len() > 1 ==> k[1] != '/'),
{
    if let Some(u) = url_core(url) {
        let l = lowercase(u);
        crate::text::lemma_drop_front_shape(l, crate::text::eq_pred('/'));
        let k = seq!['/'] + trim_start_char(l, '/');
        if k.len() > 1 {
            assert(k[1] == trim_start_char(l, '/')[0]);
        }
    }
}

/// The index key of a path is empty exactly when the path is blank, and
/// otherwise starts with exactly one `/`.
pub proof fn law_path_key_one_slash(p: Seq<char>)
    ensures
        path_key(p).len() == 0 <==> trim(p).len() == 0,
        path_key(p).len() > 0 ==> path_key(p)[0] == '/' && (path_key(p).len() > 1 ==> path_key(p)[1] != '/'),
{
    let s = lowercase(trim(p));
    crate::text::lemma_drop_front_shape(s, crate::text::eq_pred('/'));
    if trim(p).len() > 0 {
        let k = seq!['/'] + trim_start_char(s, '/');
        if k.len() > 1 {
            assert(k[1] == trim_start_char(s, '/')[0]);
        }
    }
}

/// Index keys and lookup keys are built the same way: a non-blank mapping
/// path with no query and no scheme is looked up under the key it was
/// indexed with.
pub proof fn law_index_and_lookup_keys_agree(p: Seq<char>)
    requires
        trim(p).len() > 0,
        !trim(p).contains('?'),
        !starts_with(trim(p), "http://"@),
        !starts_with(trim(p), "https://"@),
    ensures
        url_key(p) == Some(path_key(p)),
{
    let t = trim(p);
    crate::text::lemma_trim_ends(p);
    crate::text::lemma_trim_fixed(t);
    lemma_find_char_facts(t, '?');
    assert(before_char(t, '?') == t);
}

// ───────────────────────── laws of the index ─────────────────────────

proof fn lemma_add_entries_keeps(m: Map<Seq<char>, Seq<(Seq<char>, Seq<char>, u32)>>, es: Seq<EntryView>, k: Seq<char>, l: (Seq<char>, Seq<char>, u32))
    requires
        m.contains_key(k),
        m[k].contains(l),
    ensures
        add_entries(m, es).contains_key(k),
        add_entries(m, es)[k].contains(l),
    decreases es.len(),
{
    if es.len() > 0 {
        lemma_add_entries_keeps(m, es.drop_last(), k, l);
        let prev = add_entries(m, es.drop_last());
        let e = es.last();
        if e.0 == k {
            let j = choose|j: int| 0 <= j < prev[k].len() && prev[k][j] == l;
            assert(prev[k].push(e.1)[j] == l);
        }
    }
}

proof fn lemma_add_entries_has(m: Map<Seq<char>, Seq<(Seq<char>, Seq<char>, u32)>>, es: Seq<EntryView>, j: int)
    requires
        0 <= j < es.len(),
    ensures
        add_entries(m, es).contains_key(es[j].0),
        add_entries(m, es)[es[j].0].contains(es[j].1),
    decreases es.len(),
{
    let prev = add_entries(m, es.drop_last());
    let e = es.last();
    if j == es.len() - 1 {
        if prev.contains_key(e.0) {
            assert(prev[e.0].push(e.1)[prev[e.0].len() as int] == e.1);
        } else {
            assert(seq![e.1][0] == e.1);
        }
    } else {
        lemma_add_entries_has(m, es.drop_last(), j);
        assert(es.drop_last()[j] == es[j]);
        let k = es[j].0;
        let l = es[j].1;
        if e.0 == k {
            let t = choose|t: int| 0 <= t < prev[k].len() && prev[k][t] == l;
            assert(prev[k].push(e.1)[t] == l);
        }
    }
}

/// A handler indexed from a source stays in the index built from a list
/// of sources that holds it, whatever comes after.
pub proof fn law_indexed_handler_kept(files: Seq<(Seq<char>, Seq<char>)>, i: int, e: EntryView)
    requires
        0 <= i < files.len(),
        is_match(CONTROLLER_RE@, files[i].1),
        index_entries(files[i].0, files[i].1).contains(e),
    ensures
        indexed(files).contains_key(e.0),
        indexed(files)[e.0].contains(e.1),
    decreases files.len(),
{
    let prev = files.drop_last();
    let f = files.last();
    if i == files.len() - 1 {
        let es = index_entries(f.0, f.1);
        let j = choose|j: int| 0 <= j < es.len() && es[j] == e;
        lemma_add_entries_has(indexed(prev), es, j);
    } else {
        assert(prev[i] == files[i]);
        law_indexed_handler_kept(prev, i, e);
        if is_match(CONTROLLER_RE@, f.1) {
            lemma_add_entries_keeps(indexed(prev), index_entries(f.0, f.1), e.0, e.1);
        }
    }
}

/// Looking up a URL whose key is that of a handler indexed from the
/// sources gives that handler, or several handlers among which it is.
pub proof fn law_lookup_finds_indexed(files: Seq<(Seq<char>, Seq<char>)>, i: int, e: EntryView, url: Seq<char>)
    requires
        0 <= i < files.len(),
        is_match(CONTROLLER_RE@, files[i].1),
        index_entries(files[i].0, files[i].1).contains(e),
        url_key(url) == Some(e.0),
    ensures
        match lookup_of(indexed(files), url) {
            LookupView::Found(l) => l == e.1,
            LookupView::Ambiguous(c) => c.contains(e.1),
            LookupView::NotFound => false,
        },
{
    law_indexed_handler_kept(files, i, e);
    let v = indexed(files)[e.0];
    if v.len() == 1 {
        let j = choose|j: int| 0 <= j < v.len() && v[j] == e.1;
        assert(j == 0);
    }
}

/// The handlers of `es` whose key is `k`, in order.
pub open spec fn handlers_with_key(es: Seq<EntryView>, k: Seq<char>) -> Seq<(Seq<char>, Seq<char>, u32)>
    decreases es.len(),
{
    if es.len() == 0 {
        Seq::empty()
    } else {
        let prev = handlers_with_key(es.drop_last(), k);
        if es.last().0 == k {
            prev.push(es.last().1)
        } else {
            prev
        }
    }
}

/// The handlers with key `k` over the controller sources, in order.
pub open spec fn bucket_of(files: Seq<(Seq<char>, Seq<char>)>, k: Seq<char>) -> Seq<(Seq<char>, Seq<char>, u32)>
    decreases files.len(),
{
    if files.len() == 0 {
        Seq::empty()
    } else {
        let f = files.last();
        bucket_of(files.drop_last(), k) + (if is_match(CONTROLLER_RE@, f.1) {
            handlers_with_key(index_entries(f.0, f.1), k)
        } else {
            Seq::empty()
        })
    }
}

proof fn lemma_add_entries_bucket(m: Map<Seq<char>, Seq<(Seq<char>, Seq<char>, u32)>>, es: Seq<EntryView>, k: Seq<char>)
    ensures
        add_entries(m, es).contains_key(k) <==> (m.contains_key(k) || handlers_with_key(es, k).len() > 0),
        add_entries(m, es).contains_key(k) ==> add_entries(m, es)[k] == (if m.contains_key(k) {
            m[k]
        } else {
            Seq::empty()
        }) + handlers_with_key(es, k),
    decreases es.len(),
{
    if es.len() > 0 {
        lemma_add_entries_bucket(m, es.drop_last(), k);
        let prev = add_entries(m, es.drop_last());
        let base: Seq<(Seq<char>, Seq<char>, u32)> = if m.contains_key(k) {
            m[k]
        } else {
            Seq::empty()
        };
        let e = es.last();
        if e.0 == k {
            if prev.contains_key(k) {
                assert(prev[k].push(e.1) =~= base + handlers_with_key(es, k));
            } else {
                assert(handlers_with_key(es.drop_last(), k).len() == 0);
                assert(seq![e.1] =~= base + handlers_with_key(es, k));
            }
        }
    } else {
        if m.contains_key(k) {
            assert(m[k] + Seq::<(Seq<char>, Seq<char>, u32)>::empty() =~= m[k]);
        }
    }
}

/// The index built from the sources holds a key exactly when some
/// controller source maps a handler to it, and its list for that key is
/// every such handler, in the order of the sources and of each source.
pub proof fn law_index_buckets(files: Seq<(Seq<char>, Seq<char>)>, k: Seq<char>)
    ensures
        indexed(files).contains_key(k) <==> bucket_of(files, k).len() > 0,
        indexed(files).contains_key(k) ==> indexed(files)[k] == bucket_of(files, k),
    decreases files.len(),
{
    if files.len() > 0 {
        let prev = files.drop_last();
        law_index_buckets(prev, k);
        let f = files.last();
        if is_match(CONTROLLER_RE@, f.1) {
            lemma_add_entries_bucket(indexed(prev), index_entries(f.0, f.1), k);
            if !indexed(prev).contains_key(k) {
                assert(bucket_of(prev, k).len() == 0);
                assert(bucket_of(files, k) =~= Seq::<(Seq<char>, Seq<char>, u32)>::empty() + handlers_with_key(index_entries(f.0, f.1), k));
            }
        } else {
            assert(bucket_of(files, k) =~= bucket_of(prev, k));
        }
    }
}

/// A URL whose key has exactly one handler over the sources is looked up
/// to that handler.
pub proof fn law_lookup_unique_handler(files: Seq<(Seq<char>, Seq<char>)>, url: Seq<char>, k: Seq<char>, loc: (Seq<char>, Seq<char>, u32))
    requires
        url_key(url) == Some(k),
        bucket_of(files, k) == seq![loc],
    ensures
        lookup_of(indexed(files), url) == LookupView::Found(loc),
{
    law_index_buckets(files, k);
}

/// An empty index finds nothing.
pub proof fn law_empty_index_finds_nothing(url: Seq<char>)
    ensures
        lookup_of(Map::<Seq<char>, Seq<(Seq<char>, Seq<char>, u32)>>::empty(), url) == LookupView::NotFound,
{
}

} // verus!
