//! Character-level text operations over `Seq<char>`, with executable
//! counterparts working on `Vec<char>`.
use vstd::prelude::*;

verus! {

broadcast use vstd::string::group_string_axioms;

// ───────────────────────── spec model ─────────────────────────

/// The Unicode `White_Space` property (PropList.txt), which is what
/// `char::is_whitespace` and `str::trim` go by.
pub open spec fn is_ws(c: char) -> bool {
    ||| ('\u{9}' <= c && c <= '\u{d}')
    ||| c == ' '
    ||| c == '\u{85}'
    ||| c == '\u{a0}'
    ||| c == '\u{1680}'
    ||| ('\u{2000}' <= c && c <= '\u{200a}')
    ||| c == '\u{2028}'
    ||| c == '\u{2029}'
    ||| c == '\u{202f}'
    ||| c == '\u{205f}'
    ||| c == '\u{3000}'
}

/// `s` without its leading characters that satisfy `p`.
pub open spec fn drop_front(s: Seq<char>, p: spec_fn(char) -> bool) -> Seq<char>
    decreases s.len(),
{
    if s.len() > 0 && p(s[0]) {
        drop_front(s.drop_first(), p)
    } else {
        s
    }
}

/// `s` without its trailing characters that satisfy `p`.
pub open spec fn drop_back(s: Seq<char>, p: spec_fn(char) -> bool) -> Seq<char>
    decreases s.len(),
{
    if s.len() > 0 && p(s.last()) {
        drop_back(s.drop_last(), p)
    } else {
        s
    }
}

pub open spec fn ws_pred() -> spec_fn(char) -> bool {
    |c: char| is_ws(c)
}

pub open spec fn eq_pred(x: char) -> spec_fn(char) -> bool {
    |c: char| c == x
}

/// `str::trim`.
pub open spec fn trim(s: Seq<char>) -> Seq<char> {
    drop_back(drop_front(s, ws_pred()), ws_pred())
}

/// `str::trim_start`.
pub open spec fn trim_start(s: Seq<char>) -> Seq<char> {
    drop_front(s, ws_pred())
}

/// `str::trim_start_matches(c)` for a single character.
pub open spec fn trim_start_char(s: Seq<char>, c: char) -> Seq<char> {
    drop_front(s, eq_pred(c))
}

/// `str::trim_end_matches(c)` for a single character.
pub open spec fn trim_end_char(s: Seq<char>, c: char) -> Seq<char> {
    drop_back(s, eq_pred(c))
}

pub open spec fn starts_with(s: Seq<char>, p: Seq<char>) -> bool {
    p.len() <= s.len() && s.take(p.len() as int) == p
}

pub open spec fn ends_with(s: Seq<char>, p: Seq<char>) -> bool {
    p.len() <= s.len() && s.skip(s.len() - p.len()) == p
}

/// `p` occurs in `s` at index `i`.
pub open spec fn occurs_at(s: Seq<char>, p: Seq<char>, i: int) -> bool {
    0 <= i && i + p.len() <= s.len() && s.subrange(i, i + p.len()) == p
}

pub open spec fn contains_sub(s: Seq<char>, p: Seq<char>) -> bool {
    exists|i: int| occurs_at(s, p, i)
}

/// Index of the first occurrence of `p` in `s` (`str::find`).
pub open spec fn find_sub(s: Seq<char>, p: Seq<char>) -> Option<int> {
    if contains_sub(s, p) {
        Some(choose|i: int| occurs_at(s, p, i) && forall|j: int| 0 <= j < i ==> !occurs_at(s, p, j))
    } else {
        None
    }
}

/// Index of the first `c` in `s`.
pub open spec fn find_char(s: Seq<char>, c: char) -> Option<int> {
    s.index_of_first(c)
}

/// `s` with every `a` replaced by `b`.
pub open spec fn replace_char(s: Seq<char>, a: char, b: char) -> Seq<char> {
    s.map_values(|x: char| if x == a { b } else { x })
}

/// The part of `s` before the first `c` (the first item of `s.split(c)`).
pub open spec fn before_char(s: Seq<char>, c: char) -> Seq<char> {
    match find_char(s, c) {
        Some(i) => s.take(i),
        None => s,
    }
}

/// Pieces of `s` between occurrences of `c` (`str::split(c)`).
pub open spec fn split_char(s: Seq<char>, c: char) -> Seq<Seq<char>>
    decreases s.len(),
{
    match find_char(s, c) {
        Some(i) => if 0 <= i < s.len() {
            seq![s.take(i)] + split_char(s.skip(i + 1), c)
        } else {
            seq![s]
        },
        None => seq![s],
    }
}

/// A line of `str::lines`: one trailing `'\r'` goes with the `'\n'` that ends it.
pub open spec fn strip_cr(s: Seq<char>) -> Seq<char> {
    if s.len() > 0 && s.last() == '\r' {
        s.drop_last()
    } else {
        s
    }
}

/// `str::lines`: split at `'\n'`, drop a `'\r'` just before it, and yield no
/// empty line after a final `'\n'`.
pub open spec fn lines(s: Seq<char>) -> Seq<Seq<char>>
    decreases s.len(),
{
    if s.len() == 0 {
        Seq::empty()
    } else {
        match find_char(s, '\n') {
            Some(i) => if 0 <= i < s.len() {
                seq![strip_cr(s.take(i))] + lines(s.skip(i + 1))
            } else {
                seq![s]
            },
            None => seq![s],
        }
    }
}

pub open spec fn ascii_upper(c: char) -> char {
    if 'a' <= c && c <= 'z' {
        ((c as u32) - 32) as char
    } else {
        c
    }
}

/// Decimal digits of `n`, as `u64::to_string` writes them.
pub open spec fn decimal(n: nat) -> Seq<char>
    decreases n,
{
    if n < 10 {
        seq![digit_char(n)]
    } else {
        decimal(n / 10).push(digit_char(n % 10))
    }
}

pub open spec fn digit_char(d: nat) -> char {
    if d == 0 { '0' }
    else if d == 1 { '1' }
    else if d == 2 { '2' }
    else if d == 3 { '3' }
    else if d == 4 { '4' }
    else if d == 5 { '5' }
    else if d == 6 { '6' }
    else if d == 7 { '7' }
    else if d == 8 { '8' }
    else { '9' }
}

pub open spec fn ascii_lower(c: char) -> char {
    if 'A' <= c && c <= 'Z' {
        ((c as u32) + 32) as char
    } else {
        c
    }
}

/// Every character is ASCII.
pub open spec fn all_ascii(s: Seq<char>) -> bool {
    forall|i: int| 0 <= i < s.len() ==> (#[trigger] s[i] as u32) < 128
}

/// ASCII case mapping of each character: `A`–`Z` to `a`–`z`, the rest unchanged.
pub open spec fn ascii_lowercase(s: Seq<char>) -> Seq<char> {
    s.map_values(|c: char| ascii_lower(c))
}

/// ASCII case mapping of each character: `a`–`z` to `A`–`Z`, the rest unchanged.
pub open spec fn ascii_uppercase(s: Seq<char>) -> Seq<char> {
    s.map_values(|c: char| ascii_upper(c))
}

/// ASCII lower-casing leaves its own result unchanged.
pub proof fn lemma_ascii_lower_fixed(c: char)
    ensures
        ascii_lower(ascii_lower(c)) == ascii_lower(c),
{
    if 'A' <= c && c <= 'Z' {
        let d = ((c as u32) + 32) as char;
        assert(d as u32 == (c as u32) + 32);
        assert(!('A' <= d && d <= 'Z'));
    }
}

/// Trimming keeps the characters ASCII.
pub proof fn lemma_trim_ascii(s: Seq<char>)
    requires
        all_ascii(s),
    ensures
        all_ascii(trim(s)),
{
    let d = drop_front(s, ws_pred());
    lemma_drop_front_shape(s, ws_pred());
    lemma_drop_back_shape(d, ws_pred());
    assert forall|i: int| 0 <= i < trim(s).len() implies (#[trigger] trim(s)[i] as u32) < 128 by {
        assert(trim(s)[i] == d[i]);
        assert(d[i] == s[s.len() - d.len() + i]);
    }
}

/// What `str::to_lowercase` returns for these characters (Unicode case mapping).
pub uninterp spec fn lowercase(s: Seq<char>) -> Seq<char>;

/// What `str::to_uppercase` returns for these characters (Unicode case mapping).
pub uninterp spec fn uppercase(s: Seq<char>) -> Seq<char>;

/// What `char::is_alphanumeric` returns (Unicode `Alphabetic` or `Numeric`).
pub uninterp spec fn alphanumeric(c: char) -> bool;

// ───────────────────────── lemmas ─────────────────────────

pub proof fn lemma_drop_front_skip(s: Seq<char>, p: spec_fn(char) -> bool, i: int)
    requires
        0 <= i <= s.len(),
        forall|j: int| 0 <= j < i ==> p(#[trigger] s[j]),
        i == s.len() || !p(s[i]),
    ensures
        drop_front(s, p) == s.skip(i),
    decreases i,
{
    if i == 0 {
        assert(s.skip(0) =~= s);
    } else {
        let t = s.drop_first();
        assert forall|j: int| 0 <= j < i - 1 implies p(#[trigger] t[j]) by {
            assert(t[j] == s[j + 1]);
        }
        lemma_drop_front_skip(t, p, i - 1);
        assert(t.skip(i - 1) =~= s.skip(i));
    }
}

/// What `drop_front` keeps is a suffix of `s` that does not start with a
/// character satisfying `p`.
pub proof fn lemma_drop_front_shape(s: Seq<char>, p: spec_fn(char) -> bool)
    ensures
        drop_front(s, p).len() <= s.len(),
        drop_front(s, p) == s.skip(s.len() - drop_front(s, p).len()),
        drop_front(s, p).len() > 0 ==> !p(drop_front(s, p)[0]),
    decreases s.len(),
{
    if s.len() > 0 && p(s[0]) {
        let t = s.drop_first();
        lemma_drop_front_shape(t, p);
        let n = drop_front(t, p).len();
        assert(t.skip(t.len() - n) =~= s.skip(s.len() - n));
    } else {
        assert(s.skip(0) =~= s);
    }
}

/// What `drop_back` keeps is a prefix of `s` that does not end with a
/// character satisfying `p`.
pub proof fn lemma_drop_back_shape(s: Seq<char>, p: spec_fn(char) -> bool)
    ensures
        drop_back(s, p).len() <= s.len(),
        drop_back(s, p) == s.take(drop_back(s, p).len() as int),
        drop_back(s, p).len() > 0 ==> !p(drop_back(s, p).last()),
    decreases s.len(),
{
    if s.len() > 0 && p(s.last()) {
        let t = s.drop_last();
        lemma_drop_back_shape(t, p);
        let n = drop_back(t, p).len();
        assert(t.take(n as int) =~= s.take(n as int));
    } else {
        assert(s.take(s.len() as int) =~= s);
    }
}

/// A trimmed text neither starts nor ends with white space.
pub proof fn lemma_trim_ends(s: Seq<char>)
    ensures
        trim(s).len() > 0 ==> !is_ws(trim(s)[0]) && !is_ws(trim(s).last()),
{
    let d = drop_front(s, ws_pred());
    lemma_drop_front_shape(s, ws_pred());
    lemma_drop_back_shape(d, ws_pred());
    let r = drop_back(d, ws_pred());
    if r.len() > 0 {
        assert(r[0] == d[0]);
    }
}

/// A text that neither starts nor ends with white space is its own trim.
pub proof fn lemma_trim_fixed(s: Seq<char>)
    requires
        s.len() == 0 || (!is_ws(s[0]) && !is_ws(s.last())),
    ensures
        trim(s) == s,
{
}

pub proof fn lemma_drop_front_len(s: Seq<char>, p: spec_fn(char) -> bool)
    ensures
        drop_front(s, p).len() <= s.len(),
    decreases s.len(),
{
    if s.len() > 0 && p(s[0]) {
        lemma_drop_front_len(s.drop_first(), p);
    }
}

pub proof fn lemma_drop_back_take(s: Seq<char>, p: spec_fn(char) -> bool, k: int)
    requires
        0 <= k <= s.len(),
        forall|j: int| k <= j < s.len() ==> p(#[trigger] s[j]),
        k == 0 || !p(s[k - 1]),
    ensures
        drop_back(s, p) == s.take(k),
    decreases s.len() - k,
{
    if k == s.len() {
        assert(s.take(k) =~= s);
    } else {
        let t = s.drop_last();
        assert forall|j: int| k <= j < t.len() implies p(#[trigger] t[j]) by {
            assert(t[j] == s[j]);
        }
        lemma_drop_back_take(t, p, k);
        assert(t.take(k) =~= s.take(k));
    }
}

pub proof fn lemma_index_of_first(s: Seq<char>, c: char, i: int)
    requires
        0 <= i <= s.len(),
        forall|j: int| 0 <= j < i ==> s[j] != c,
    ensures
        i < s.len() && s[i] == c ==> find_char(s, c) == Some(i),
        i == s.len() ==> find_char(s, c) == None::<int>,
{
    s.index_of_first_ensures(c);
}

pub proof fn lemma_find_char_facts(s: Seq<char>, c: char)
    ensures
        find_char(s, c) matches Some(i) ==> 0 <= i < s.len() && s[i] == c && forall|j: int|
            0 <= j < i ==> s[j] != c,
        find_char(s, c) is None ==> forall|j: int| 0 <= j < s.len() ==> s[j] != c,
{
    s.index_of_first_ensures(c);
}

// ───────────────────────── trusted std items ─────────────────────────

/// Wraps `String::push`: appends one character.
#[verifier::external_body]
fn push_char(s: &mut String, c: char)
    ensures
        final(s)@ == old(s)@.push(c),
{
    s.push(c)
}

/// Wraps `str::to_lowercase`; its result is named by `lowercase`. The
/// documentation maps each character to one or more characters, so the
/// result is empty exactly when the text is; on ASCII text the mapping is the ASCII
/// one (`A`–`Z` to `a`–`z`, every other character kept).
#[verifier::external_body]
fn str_to_lowercase(s: &str) -> (r: String)
    ensures
        r@ == lowercase(s@),
        r@.len() == 0 <==> s@.len() == 0,
        all_ascii(s@) ==> r@ == ascii_lowercase(s@),
{
    s.to_lowercase()
}

/// Wraps `str::to_uppercase`; its result is named by `uppercase`. The
/// documentation maps each character to one or more characters, so the
/// result is empty exactly when the text is; on ASCII text the mapping is the ASCII
/// one (`a`–`z` to `A`–`Z`, every other character kept).
#[verifier::external_body]
fn str_to_uppercase(s: &str) -> (r: String)
    ensures
        r@ == uppercase(s@),
        r@.len() == 0 <==> s@.len() == 0,
        all_ascii(s@) ==> r@ == ascii_uppercase(s@),
{
    s.to_uppercase()
}

/// Wraps `char::is_alphanumeric`; its result is named by `alphanumeric`.
#[verifier::external_body]
fn char_is_alphanumeric(c: char) -> (r: bool)
    ensures
        r == alphanumeric(c),
{
    c.is_alphanumeric()
}

// ───────────────────────── exec ─────────────────────────

/// The characters of `s`, in order.
pub fn chars_of(s: &str) -> (r: Vec<char>)
    ensures
        r@ == s@,
{
    let mut r: Vec<char> = Vec::new();
    for c in it: s.chars()
        invariant
            r@ == it.seq().take(it.index() as int),
            it.seq() == s@,
    {
        r.push(c);
    }
    r
}

/// A `String` holding exactly the characters of `v`.
pub fn string_of(v: &Vec<char>) -> (r: String)
    ensures
        r@ == v@,
{
    let mut r = String::new();
    let mut i: usize = 0;
    while i < v.len()
        invariant
            i <= v.len(),
            r@ == v@.take(i as int),
        decreases v.len() - i,
    {
        push_char(&mut r, v[i]);
        i += 1;
        assert(r@ =~= v@.take(i as int));
    }
    assert(v@.take(v@.len() as int) =~= v@);
    r
}

pub fn is_ws_char(c: char) -> (r: bool)
    ensures
        r == is_ws(c),
{
    ('\u{9}' <= c && c <= '\u{d}') || c == ' ' || c == '\u{85}' || c == '\u{a0}' || c == '\u{1680}'
        || ('\u{2000}' <= c && c <= '\u{200a}') || c == '\u{2028}' || c == '\u{2029}' || c
        == '\u{202f}' || c == '\u{205f}' || c == '\u{3000}'
}

/// `v[a..b]` as a new vector.
pub fn slice(v: &Vec<char>, a: usize, b: usize) -> (r: Vec<char>)
    requires
        a <= b <= v.len(),
    ensures
        r@ == v@.subrange(a as int, b as int),
{
    let mut r: Vec<char> = Vec::new();
    let mut i = a;
    while i < b
        invariant
            a <= i <= b <= v.len(),
            r@ == v@.subrange(a as int, i as int),
        decreases b - i,
    {
        r.push(v[i]);
        i += 1;
        assert(r@ =~= v@.subrange(a as int, i as int));
    }
    r
}

/// `a + b`.
pub fn concat(a: &Vec<char>, b: &Vec<char>) -> (r: Vec<char>)
    ensures
        r@ == a@ + b@,
{
    let mut r = a.clone();
    let mut i: usize = 0;
    while i < b.len()
        invariant
            i <= b.len(),
            r@ == a@ + b@.take(i as int),
        decreases b.len() - i,
    {
        r.push(b[i]);
        i += 1;
        assert(r@ =~= a@ + b@.take(i as int));
    }
    assert(b@.take(b@.len() as int) =~= b@);
    r
}

/// `str::trim`.
pub fn trim_chars(v: &Vec<char>) -> (r: Vec<char>)
    ensures
        r@ == trim(v@),
{
    let mut i: usize = 0;
    while i < v.len() && is_ws_char(v[i])
        invariant
            i <= v.len(),
            forall|j: int| 0 <= j < i ==> is_ws(#[trigger] v@[j]),
        decreases v.len() - i,
    {
        i += 1;
    }
    proof {
        lemma_drop_front_skip(v@, ws_pred(), i as int);
    }
    let mut k: usize = v.len();
    while k > i && is_ws_char(v[k - 1])
        invariant
            i <= k <= v.len(),
            forall|j: int| k <= j < v.len() ==> is_ws(#[trigger] v@[j]),
        decreases k,
    {
        k -= 1;
    }
    let r = slice(v, i, k);
    proof {
        let t = v@.skip(i as int);
        assert forall|j: int| k - i <= j < t.len() implies ws_pred()(#[trigger] t[j]) by {
            assert(t[j] == v@[j + i]);
        }
        lemma_drop_back_take(t, ws_pred(), k - i);
        assert(t.take(k - i) =~= v@.subrange(i as int, k as int));
    }
    r
}

/// `str::trim_start`.
pub fn trim_start_chars(v: &Vec<char>) -> (r: Vec<char>)
    ensures
        r@ == trim_start(v@),
{
    let mut i: usize = 0;
    while i < v.len() && is_ws_char(v[i])
        invariant
            i <= v.len(),
            forall|j: int| 0 <= j < i ==> is_ws(#[trigger] v@[j]),
        decreases v.len() - i,
    {
        i += 1;
    }
    proof {
        lemma_drop_front_skip(v@, ws_pred(), i as int);
        assert(v@.skip(i as int) =~= v@.subrange(i as int, v@.len() as int));
    }
    slice(v, i, v.len())
}

/// `str::trim_start_matches(c)`.
pub fn trim_start_char_of(v: &Vec<char>, c: char) -> (r: Vec<char>)
    ensures
        r@ == trim_start_char(v@, c),
{
    let mut i: usize = 0;
    while i < v.len() && v[i] == c
        invariant
            i <= v.len(),
            forall|j: int| 0 <= j < i ==> #[trigger] v@[j] == c,
        decreases v.len() - i,
    {
        i += 1;
    }
    proof {
        lemma_drop_front_skip(v@, eq_pred(c), i as int);
        assert(v@.skip(i as int) =~= v@.subrange(i as int, v@.len() as int));
    }
    slice(v, i, v.len())
}

/// `str::trim_end_matches(c)`.
pub fn trim_end_char_of(v: &Vec<char>, c: char) -> (r: Vec<char>)
    ensures
        r@ == trim_end_char(v@, c),
{
    let mut k: usize = v.len();
    while k > 0 && v[k - 1] == c
        invariant
            k <= v.len(),
            forall|j: int| k <= j < v.len() ==> #[trigger] v@[j] == c,
        decreases k,
    {
        k -= 1;
    }
    proof {
        lemma_drop_back_take(v@, eq_pred(c), k as int);
        assert(v@.take(k as int) =~= v@.subrange(0, k as int));
    }
    slice(v, 0, k)
}

pub fn starts_with_chars(v: &Vec<char>, p: &Vec<char>) -> (r: bool)
    ensures
        r == starts_with(v@, p@),
{
    if p.len() > v.len() {
        return false;
    }
    let mut i: usize = 0;
    while i < p.len()
        invariant
            p.len() <= v.len(),
            i <= p.len(),
            forall|j: int| 0 <= j < i ==> v@[j] == p@[j],
        decreases p.len() - i,
    {
        if v[i] != p[i] {
            assert(v@.take(p.len() as int)[i as int] != p@[i as int]);
            return false;
        }
        i += 1;
    }
    assert(v@.take(p.len() as int) =~= p@);
    true
}

/// Whether `p` occurs in `v` at index `at`.
pub fn occurs_at_chars(v: &Vec<char>, p: &Vec<char>, at: usize) -> (r: bool)
    ensures
        r == occurs_at(v@, p@, at as int),
{
    if at > v.len() || p.len() > v.len() - at {
        return false;
    }
    let mut i: usize = 0;
    while i < p.len()
        invariant
            at + p.len() <= v.len(),
            i <= p.len(),
            forall|j: int| 0 <= j < i ==> v@[at + j] == p@[j],
        decreases p.len() - i,
    {
        if v[at + i] != p[i] {
            assert(v@.subrange(at as int, at + p.len())[i as int] != p@[i as int]);
            return false;
        }
        i += 1;
    }
    assert(v@.subrange(at as int, at + p.len()) =~= p@);
    true
}

pub fn ends_with_chars(v: &Vec<char>, p: &Vec<char>) -> (r: bool)
    ensures
        r == ends_with(v@, p@),
{
    if p.len() > v.len() {
        return false;
    }
    let r = occurs_at_chars(v, p, v.len() - p.len());
    assert(v@.subrange(v.len() - p.len(), v.len() - p.len() + p.len()) =~= v@.skip(
        v.len() - p.len(),
    ));
    r
}

/// `str::find` for a pattern of characters.
pub fn find_sub_chars(v: &Vec<char>, p: &Vec<char>) -> (r: Option<usize>)
    ensures
        r matches Some(i) ==> find_sub(v@, p@) == Some(i as int),
        r is None ==> find_sub(v@, p@) is None,
{
    let mut i: usize = 0;
    loop
        invariant
            i <= v.len(),
            forall|j: int| 0 <= j < i ==> !occurs_at(v@, p@, j),
        decreases v.len() - i,
    {
        if occurs_at_chars(v, p, i) {
            let ghost w = choose|k: int|
                occurs_at(v@, p@, k) && forall|j: int| 0 <= j < k ==> !occurs_at(v@, p@, j);
            assert(occurs_at(v@, p@, i as int));
            assert(w == i as int) by {
                if w < i {
                } else if w > i {
                }
            }
            return Some(i);
        }
        if i == v.len() {
            assert(!contains_sub(v@, p@)) by {
                assert forall|k: int| !occurs_at(v@, p@, k) by {
                    if 0 <= k < i {
                    }
                }
            }
            return None;
        }
        i += 1;
    }
}

pub fn contains_chars(v: &Vec<char>, p: &Vec<char>) -> (r: bool)
    ensures
        r == contains_sub(v@, p@),
{
    match find_sub_chars(v, p) {
        Some(_) => true,
        None => false,
    }
}

/// Index of the first `c` in `v[from..]`, counted from the start of `v`.
pub fn find_char_from(v: &Vec<char>, c: char, from: usize) -> (r: Option<usize>)
    requires
        from <= v.len(),
    ensures
        r matches Some(i) ==> from <= i < v.len() && v@[i as int] == c && forall|j: int|
            from <= j < i ==> v@[j] != c,
        r is None ==> forall|j: int| from <= j < v.len() ==> v@[j] != c,
{
    let mut i = from;
    while i < v.len()
        invariant
            from <= i <= v.len(),
            forall|j: int| from <= j < i ==> v@[j] != c,
        decreases v.len() - i,
    {
        if v[i] == c {
            return Some(i);
        }
        i += 1;
    }
    None
}

/// Index of the first `c` in `v`.
pub fn find_char_of(v: &Vec<char>, c: char) -> (r: Option<usize>)
    ensures
        r matches Some(i) ==> find_char(v@, c) == Some(i as int),
        r is None ==> find_char(v@, c) is None,
{
    let r = find_char_from(v, c, 0);
    proof {
        match r {
            Some(i) => lemma_index_of_first(v@, c, i as int),
            None => lemma_index_of_first(v@, c, v@.len() as int),
        }
    }
    r
}

pub fn replace_char_of(v: &Vec<char>, a: char, b: char) -> (r: Vec<char>)
    ensures
        r@ == replace_char(v@, a, b),
{
    let mut r: Vec<char> = Vec::new();
    let mut i: usize = 0;
    while i < v.len()
        invariant
            i <= v.len(),
            r@ == replace_char(v@.take(i as int), a, b),
        decreases v.len() - i,
    {
        let c = if v[i] == a {
            b
        } else {
            v[i]
        };
        r.push(c);
        i += 1;
        assert(r@ =~= replace_char(v@.take(i as int), a, b));
    }
    assert(v@.take(v@.len() as int) =~= v@);
    r
}

/// The part of `v` before the first `c`.
pub fn before_char_of(v: &Vec<char>, c: char) -> (r: Vec<char>)
    ensures
        r@ == before_char(v@, c),
{
    match find_char_of(v, c) {
        Some(i) => {
            proof {
                lemma_find_char_facts(v@, c);
            }
            assert(v@.take(i as int) =~= v@.subrange(0, i as int));
            slice(v, 0, i)
        },
        None => v.clone(),
    }
}

/// `str::to_lowercase`.
pub fn lowercase_of(v: &Vec<char>) -> (r: Vec<char>)
    ensures
        r@ == lowercase(v@),
        r@.len() == 0 <==> v@.len() == 0,
        all_ascii(v@) ==> r@ == ascii_lowercase(v@),
{
    let s = string_of(v);
    let l = str_to_lowercase(s.as_str());
    chars_of(l.as_str())
}

/// `str::to_uppercase`.
pub fn uppercase_of(v: &Vec<char>) -> (r: Vec<char>)
    ensures
        r@ == uppercase(v@),
        r@.len() == 0 <==> v@.len() == 0,
        all_ascii(v@) ==> r@ == ascii_uppercase(v@),
{
    let s = string_of(v);
    let l = str_to_uppercase(s.as_str());
    chars_of(l.as_str())
}

pub fn is_alphanumeric_char(c: char) -> (r: bool)
    ensures
        r == alphanumeric(c),
{
    char_is_alphanumeric(c)
}

pub fn ascii_upper_char(c: char) -> (r: char)
    ensures
        r == ascii_upper(c),
{
    if 'a' <= c && c <= 'z' {
        let u = (c as u32) - 32;
        assert(0x41 <= u <= 0x5a);
        (u as u8) as char
    } else {
        c
    }
}

/// Whether `v` and `p` hold the same characters.
pub fn eq_chars(v: &Vec<char>, p: &Vec<char>) -> (r: bool)
    ensures
        r == (v@ == p@),
{
    if v.len() != p.len() {
        return false;
    }
    let r = starts_with_chars(v, p);
    assert(v@.take(p.len() as int) =~= v@);
    r
}

/// Decimal digits of `n`.
pub fn decimal_of(n: u128) -> (r: Vec<char>)
    ensures
        r@ == decimal(n as nat),
    decreases n,
{
    let d = (n % 10) as u8;
    let c = (d + 48) as char;
    assert(c == digit_char((n % 10) as nat)) by {
        assert(d < 10);
    }
    if n < 10 {
        vec![c]
    } else {
        let mut r = decimal_of(n / 10);
        r.push(c);
        r
    }
}

/// The characters an optional vector holds.
pub open spec fn opt_chars(o: Option<Vec<char>>) -> Option<Seq<char>> {
    match o {
        Some(v) => Some(v@),
        None => None,
    }
}

/// The characters an optional string holds.
pub open spec fn opt_str(o: Option<String>) -> Option<Seq<char>> {
    match o {
        Some(v) => Some(v@),
        None => None,
    }
}

/// The character sequences of a list of strings.
pub open spec fn string_views(v: Seq<String>) -> Seq<Seq<char>> {
    v.map_values(|s: String| s@)
}

/// The character sequences held by `v`.
pub open spec fn views(v: Seq<Vec<char>>) -> Seq<Seq<char>> {
    v.map_values(|x: Vec<char>| x@)
}

/// `v` split at every `c`.
pub fn split_char_of(v: &Vec<char>, c: char) -> (r: Vec<Vec<char>>)
    ensures
        views(r@) == split_char(v@, c),
{
    let mut r: Vec<Vec<char>> = Vec::new();
    let mut start: usize = 0;
    assert(v@.skip(0) =~= v@);
    assert(views(r@) =~= Seq::<Seq<char>>::empty());
    assert(views(r@) + split_char(v@, c) =~= split_char(v@, c));
    loop
        invariant
            start <= v.len(),
            views(r@) + split_char(v@.skip(start as int), c) == split_char(v@, c),
        decreases v.len() - start,
    {
        let ghost rest = v@.skip(start as int);
        let found = find_char_from(v, c, start);
        match found {
            Some(i) => {
                proof {
                    lemma_index_of_first(rest, c, i - start);
                    assert forall|j: int| 0 <= j < i - start implies rest[j] != c by {
                        assert(rest[j] == v@[j + start]);
                    }
                    lemma_index_of_first(rest, c, i - start);
                    assert(rest.take(i - start) =~= v@.subrange(start as int, i as int));
                    assert(rest.skip(i - start + 1) =~= v@.skip(i + 1));
                }
                let piece = slice(v, start, i);
                let ghost before = views(r@);
                r.push(piece);
                assert(views(r@) =~= before.push(piece@));
                assert(split_char(rest, c) == seq![rest.take(i - start)] + split_char(
                    rest.skip(i - start + 1),
                    c,
                ));
                assert(before + split_char(rest, c) =~= views(r@) + split_char(
                    v@.skip(i + 1),
                    c,
                ));
                start = i + 1;
            },
            None => {
                proof {
                    assert forall|j: int| 0 <= j < rest.len() implies rest[j] != c by {
                        assert(rest[j] == v@[j + start]);
                    }
                    lemma_index_of_first(rest, c, rest.len() as int);
                    assert(rest =~= v@.subrange(start as int, v@.len() as int));
                }
                let piece = slice(v, start, v.len());
                let ghost before = views(r@);
                r.push(piece);
                assert(views(r@) =~= before.push(piece@));
                assert(before + split_char(rest, c) =~= views(r@));
                return r;
            },
        }
    }
}

/// Lines joined by `'\n'` (`[&str]::join("\n")`).
pub open spec fn join_lines(ls: Seq<Seq<char>>) -> Seq<char>
    decreases ls.len(),
{
    if ls.len() == 0 {
        Seq::empty()
    } else if ls.len() == 1 {
        ls[0]
    } else {
        join_lines(ls.drop_last()).push('\n') + ls.last()
    }
}

/// `lines.join("\n")`.
pub fn join_lines_of(ls: &Vec<Vec<char>>, from: usize, to: usize) -> (r: Vec<char>)
    requires
        from <= to <= ls.len(),
    ensures
        r@ == join_lines(views(ls@).subrange(from as int, to as int)),
{
    let mut r: Vec<char> = Vec::new();
    let mut i = from;
    assert(views(ls@).subrange(from as int, from as int) =~= Seq::<Seq<char>>::empty());
    while i < to
        invariant
            from <= i <= to <= ls.len(),
            r@ == join_lines(views(ls@).subrange(from as int, i as int)),
        decreases to - i,
    {
        let ghost prev = views(ls@).subrange(from as int, i as int);
        let ghost next = views(ls@).subrange(from as int, i + 1);
        assert(next.drop_last() =~= prev);
        assert(next.last() == ls@[i as int]@);
        if i > from {
            r.push('\n');
        } else {
            assert(next.len() == 1);
        }
        r = concat(&r, &ls[i]);
        i += 1;
    }
    r
}

/// The lines of `v` (`str::lines`).
pub fn lines_of(v: &Vec<char>) -> (r: Vec<Vec<char>>)
    ensures
        views(r@) == lines(v@),
{
    let mut r: Vec<Vec<char>> = Vec::new();
    let mut start: usize = 0;
    assert(v@.skip(0) =~= v@);
    assert(views(r@) =~= Seq::<Seq<char>>::empty());
    assert(views(r@) + lines(v@) =~= lines(v@));
    loop
        invariant
            start <= v.len(),
            views(r@) + lines(v@.skip(start as int)) == lines(v@),
        decreases v.len() - start,
    {
        let ghost rest = v@.skip(start as int);
        if start == v.len() {
            assert(rest.len() == 0);
            assert(views(r@) + lines(rest) =~= views(r@));
            return r;
        }
        let found = find_char_from(v, '\n', start);
        match found {
            Some(i) => {
                proof {
                    assert forall|j: int| 0 <= j < i - start implies rest[j] != '\n' by {
                        assert(rest[j] == v@[j + start]);
                    }
                    lemma_index_of_first(rest, '\n', i - start);
                    assert(rest.take(i - start) =~= v@.subrange(start as int, i as int));
                    assert(rest.skip(i - start + 1) =~= v@.skip(i + 1));
                }
                let mut end = i;
                if end > start && v[end - 1] == '\r' {
                    end = end - 1;
                }
                let piece = slice(v, start, end);
                assert(piece@ == strip_cr(rest.take(i - start))) by {
                    let t = rest.take(i - start);
                    if t.len() > 0 && t.last() == '\r' {
                        assert(t.drop_last() =~= v@.subrange(start as int, end as int));
                    } else {
                        assert(t =~= v@.subrange(start as int, end as int));
                    }
                }
                let ghost before = views(r@);
                r.push(piece);
                assert(views(r@) =~= before.push(piece@));
                assert(before + lines(rest) =~= views(r@) + lines(v@.skip(i + 1)));
                start = i + 1;
            },
            None => {
                proof {
                    assert forall|j: int| 0 <= j < rest.len() implies rest[j] != '\n' by {
                        assert(rest[j] == v@[j + start]);
                    }
                    lemma_index_of_first(rest, '\n', rest.len() as int);
                    assert(rest =~= v@.subrange(start as int, v@.len() as int));
                }
                let piece = slice(v, start, v.len());
                let ghost before = views(r@);
                r.push(piece);
                assert(views(r@) =~= before.push(piece@));
                assert(before + lines(rest) =~= views(r@));
                return r;
            },
        }
    }
}

/// Characters of a literal or other string slice, as a vector.
pub fn lit(s: &str) -> (r: Vec<char>)
    ensures
        r@ == s@,
{
    chars_of(s)
}

/// A `String` holding `a + b`.
pub fn string_cat(a: &Vec<char>, b: &Vec<char>) -> (r: String)
    ensures
        r@ == a@ + b@,
{
    let c = concat(a, b);
    string_of(&c)
}

/// A copy of `v`.
pub fn copy_chars(v: &Vec<char>) -> (r: Vec<char>)
    ensures
        r@ == v@,
{
    let r = slice(v, 0, v.len());
    assert(r@ =~= v@);
    r
}

/// Appends copies of the strings of `more` to `out`.
pub fn append_all(out: &mut Vec<Vec<char>>, more: &Vec<Vec<char>>)
    ensures
        views(final(out)@) == views(old(out)@) + views(more@),
{
    let ghost before = views(out@);
    let mut k: usize = 0;
    assert(views(out@) =~= before + views(more@).take(0));
    while k < more.len()
        invariant
            k <= more.len(),
            views(out@) == before + views(more@).take(k as int),
        decreases more.len() - k,
    {
        let c = copy_chars(&more[k]);
        let ghost cur = views(out@);
        out.push(c);
        assert(views(out@) =~= cur.push(more@[k as int]@));
        assert(views(more@).take(k + 1) =~= views(more@).take(k as int).push(more@[k as int]@));
        assert(views(out@) =~= before + views(more@).take(k + 1));
        k += 1;
    }
    assert(views(more@).take(more@.len() as int) =~= views(more@));
}

} // verus!
