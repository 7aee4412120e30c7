//! Character-level helpers on strings, with their meaning stated over `Seq<char>`.
use vstd::prelude::*;

verus! {

/// The characters of a string slice.
pub fn str_chars(s: &str) -> (res: Vec<char>)
    ensures
        res@ == s@,
{
    let mut out: Vec<char> = Vec::new();
    for c in it: s.chars()
        invariant
            it.seq() == s@,
            out@ == s@.take(it.index()),
    {
        out.push(c);
    }
    proof {
        assert(s@.take(s@.len() as int) == s@);
    }
    out
}

/// Appends one character (std's `String::push`).
#[verifier::external_body]
fn push_char(s: &mut String, c: char)
    ensures
        final(s)@ == old(s)@.push(c),
{
    s.push(c)
}

/// Builds a `String` from its characters.
pub fn string_from_chars(chars: &Vec<char>) -> (res: String)
    ensures
        res@ == chars@,
{
    let mut out = String::new();
    for k in 0..chars.len()
        invariant
            out@ == chars@.take(k as int),
    {
        push_char(&mut out, chars[k]);
        assert(chars@.take(k + 1) =~= chars@.take(k as int).push(chars@[k as int]));
    }
    assert(chars@.take(chars@.len() as int) =~= chars@);
    out
}

/// Whether two string slices hold the same text.
pub fn str_eq(a: &str, b: &str) -> (res: bool)
    ensures
        res == (a@ == b@),
{
    chars_equal(&str_chars(a), &str_chars(b))
}

/// A fresh `String` holding the given text.
pub fn owned(s: &str) -> (res: String)
    ensures
        res@ == s@,
{
    String::from_str(s)
}

/// Copies an optional string.
pub fn clone_opt_string(s: &Option<String>) -> (res: Option<String>)
    ensures
        opt_str_view(res) == opt_str_view(*s),
{
    match s {
        Some(v) => Some(v.clone()),
        None => None,
    }
}

/// Copies a vector of strings.
pub fn clone_strings(v: &Vec<String>) -> (res: Vec<String>)
    ensures
        strings_view(res@) == strings_view(v@),
{
    let mut out: Vec<String> = Vec::new();
    for i in 0..v.len()
        invariant
            out@.len() == i,
            forall|k: int| 0 <= k < i ==> #[trigger] out@[k]@ == v@[k]@,
    {
        out.push(v[i].clone());
    }
    proof {
        assert(strings_view(out@) =~= strings_view(v@));
    }
    out
}

pub open spec fn opt_str_view(o: Option<String>) -> Option<Seq<char>> {
    match o {
        Some(s) => Some(s@),
        None => None,
    }
}

pub open spec fn strings_view(v: Seq<String>) -> Seq<Seq<char>> {
    v.map_values(|s: String| s@)
}

/// `None` for the empty text, the text itself otherwise.
pub open spec fn spec_empty_to_none(text: Seq<char>) -> Option<Seq<char>> {
    if text.len() == 0 {
        None
    } else {
        Some(text)
    }
}

pub fn empty_to_none(text: String) -> (res: Option<String>)
    ensures
        opt_str_view(res) == spec_empty_to_none(text@),
{
    if text.as_str().is_empty() {
        None
    } else {
        Some(text)
    }
}

/// The text with every trailing line feed removed.
pub open spec fn spec_trim_trailing_newlines(text: Seq<char>) -> Seq<char>
    decreases text.len(),
{
    if text.len() > 0 && text.last() == '\n' {
        spec_trim_trailing_newlines(text.drop_last())
    } else {
        text
    }
}

pub fn trim_trailing_newlines_chars(text: &Vec<char>) -> (res: usize)
    ensures
        res <= text@.len(),
        text@.take(res as int) == spec_trim_trailing_newlines(text@),
{
    let mut n = text.len();
    assert(text@.take(n as int) =~= text@);
    while n > 0 && text[n - 1] == '\n'
        invariant
            n <= text@.len(),
            spec_trim_trailing_newlines(text@.take(n as int)) == spec_trim_trailing_newlines(text@),
        decreases n,
    {
        assert(text@.take(n as int).drop_last() =~= text@.take(n - 1));
        n = n - 1;
    }
    assert(text@.take(text@.len() as int) =~= text@);
    n
}

pub fn trim_trailing_newlines(text: String) -> (res: String)
    ensures
        res@ == spec_trim_trailing_newlines(text@),
{
    let mut chars = str_chars(text.as_str());
    let n = trim_trailing_newlines_chars(&chars);
    if n == chars.len() {
        assert(chars@.take(n as int) =~= chars@);
        text
    } else {
        chars.truncate(n);
        string_from_chars(&chars)
    }
}

/// Lexicographic order on character sequences, characters compared by code point
/// (the order of `str`'s `Ord`, since UTF-8 keeps code point order).
pub open spec fn spec_chars_lt(a: Seq<char>, b: Seq<char>) -> bool
    decreases a.len(),
{
    if b.len() == 0 {
        false
    } else if a.len() == 0 {
        true
    } else if (a[0] as int) < (b[0] as int) {
        true
    } else if a[0] == b[0] {
        spec_chars_lt(a.drop_first(), b.drop_first())
    } else {
        false
    }
}

pub fn chars_lt(a: &Vec<char>, b: &Vec<char>) -> (res: bool)
    ensures
        res == spec_chars_lt(a@, b@),
{
    let mut k: usize = 0;
    assert(a@.skip(0) =~= a@);
    assert(b@.skip(0) =~= b@);
    while k < a.len() && k < b.len()
        invariant
            k <= a@.len(),
            k <= b@.len(),
            a@.take(k as int) == b@.take(k as int),
            spec_chars_lt(a@.skip(k as int), b@.skip(k as int)) == spec_chars_lt(a@, b@),
        decreases a@.len() - k,
    {
        let ca = a[k];
        let cb = b[k];
        assert(a@.skip(k as int)[0] == ca);
        assert(b@.skip(k as int)[0] == cb);
        if ca < cb {
            return true;
        }
        if ca != cb {
            return false;
        }
        assert(a@.skip(k as int).drop_first() =~= a@.skip(k + 1));
        assert(b@.skip(k as int).drop_first() =~= b@.skip(k + 1));
        assert(a@.take(k + 1) =~= a@.take(k as int).push(ca));
        assert(b@.take(k + 1) =~= b@.take(k as int).push(cb));
        k = k + 1;
    }
    k < b.len()
}

pub fn chars_equal(a: &Vec<char>, b: &Vec<char>) -> (res: bool)
    ensures
        res == (a@ == b@),
{
    if a.len() != b.len() {
        return false;
    }
    let mut k: usize = 0;
    while k < a.len()
        invariant
            k <= a@.len() == b@.len(),
            a@.take(k as int) == b@.take(k as int),
        decreases a@.len() - k,
    {
        if a[k] != b[k] {
            return false;
        }
        assert(a@.take(k + 1) =~= a@.take(k as int).push(a@[k as int]));
        assert(b@.take(k + 1) =~= b@.take(k as int).push(b@[k as int]));
        k = k + 1;
    }
    assert(a@.take(k as int) =~= a@);
    assert(b@.take(k as int) =~= b@);
    true
}

/// `char::is_whitespace`: the Unicode `White_Space` property.
pub open spec fn spec_is_whitespace(c: char) -> bool {
    let u = c as u32;
    ||| 0x9 <= u <= 0xD
    ||| u == 0x20
    ||| u == 0x85
    ||| u == 0xA0
    ||| u == 0x1680
    ||| 0x2000 <= u <= 0x200A
    ||| u == 0x2028
    ||| u == 0x2029
    ||| u == 0x202F
    ||| u == 0x205F
    ||| u == 0x3000
}

pub fn is_whitespace(c: char) -> (res: bool)
    ensures
        res == spec_is_whitespace(c),
{
    let u = c as u32;
    (0x9 <= u && u <= 0xD) || u == 0x20 || u == 0x85 || u == 0xA0 || u == 0x1680 || (0x2000 <= u && u <= 0x200A)
        || u == 0x2028 || u == 0x2029 || u == 0x202F || u == 0x205F || u == 0x3000
}

/// The text without its leading whitespace.
pub open spec fn spec_trim_start(s: Seq<char>) -> Seq<char>
    decreases s.len(),
{
    if s.len() > 0 && spec_is_whitespace(s[0]) {
        spec_trim_start(s.drop_first())
    } else {
        s
    }
}

/// Index of the first character that is not whitespace.
pub fn skip_whitespace(chars: &Vec<char>) -> (res: usize)
    ensures
        res <= chars@.len(),
        chars@.skip(res as int) == spec_trim_start(chars@),
{
    let mut k: usize = 0;
    assert(chars@.skip(0) =~= chars@);
    while k < chars.len() && is_whitespace(chars[k])
        invariant
            k <= chars@.len(),
            spec_trim_start(chars@.skip(k as int)) == spec_trim_start(chars@),
        decreases chars@.len() - k,
    {
        assert(chars@.skip(k as int).drop_first() =~= chars@.skip(k + 1));
        k = k + 1;
    }
    k
}

pub open spec fn has_prefix(s: Seq<char>, prefix: Seq<char>) -> bool {
    prefix.len() <= s.len() && s.take(prefix.len() as int) == prefix
}

/// Whether the characters from position `from` on begin with `lit`.
pub fn starts_with_at(chars: &Vec<char>, from: usize, lit: &str) -> (res: bool)
    requires
        from <= chars@.len(),
    ensures
        res == has_prefix(chars@.skip(from as int), lit@),
{
    let p = str_chars(lit);
    let n = chars.len();
    if p.len() > n - from {
        return false;
    }
    let mut k: usize = 0;
    while k < p.len()
        invariant
            n == chars@.len(),
            from <= chars@.len(),
            p@ == lit@,
            p@.len() <= chars@.len() - from,
            k <= p@.len(),
            forall|m: int| 0 <= m < k ==> chars@[from + m] == p@[m],
        decreases p@.len() - k,
    {
        if chars[from + k] != p[k] {
            assert(chars@.skip(from as int).take(p@.len() as int)[k as int] != p@[k as int]);
            return false;
        }
        k = k + 1;
    }
    assert(chars@.skip(from as int).take(p@.len() as int) =~= p@);
    true
}

/// The text before position `start` and after the `len` characters from `start`, each cut to
/// at most `max` characters next to that span.
pub open spec fn take_last(s: Seq<char>, n: int) -> Seq<char> {
    if s.len() <= n {
        s
    } else {
        s.skip(s.len() - n)
    }
}

pub open spec fn take_first(s: Seq<char>, n: int) -> Seq<char> {
    if s.len() <= n {
        s
    } else {
        s.take(n)
    }
}

pub fn clone_chars(v: &Vec<char>) -> (res: Vec<char>)
    ensures
        res@ == v@,
{
    let res = v.clone();
    assert(res@ =~= v@);
    res
}

pub open spec fn is_ascii_digit(c: char) -> bool {
    '0' <= c <= '9'
}

/// The value of a string of decimal digits.
pub open spec fn digits_value(s: Seq<char>) -> int
    decreases s.len(),
{
    if s.len() == 0 {
        0
    } else {
        digits_value(s.drop_last()) * 10 + (s.last() as int - '0' as int)
    }
}

pub open spec fn all_digits(s: Seq<char>) -> bool {
    forall|k: int| 0 <= k < s.len() ==> is_ascii_digit(#[trigger] s[k])
}

/// `usize::from_str`: an optional `+`, then one or more ASCII digits whose value fits.
pub open spec fn spec_parse_usize(s: Seq<char>) -> Option<usize> {
    let body = if s.len() > 0 && s[0] == '+' { s.drop_first() } else { s };
    if body.len() > 0 && all_digits(body) && digits_value(body) <= usize::MAX {
        Some(digits_value(body) as usize)
    } else {
        None
    }
}

proof fn lemma_digits_value_prefix(s: Seq<char>, k: int)
    requires
        all_digits(s),
        0 <= k <= s.len(),
    ensures
        0 <= digits_value(s.take(k)) <= digits_value(s),
    decreases s.len(),
{
    if k < s.len() {
        let d = s.drop_last();
        assert(all_digits(d)) by {
            assert forall|m: int| 0 <= m < d.len() implies is_ascii_digit(#[trigger] d[m]) by {
                assert(d[m] == s[m]);
            }
        }
        lemma_digits_value_prefix(d, k);
        assert(d.take(k) =~= s.take(k));
        assert(is_ascii_digit(s[s.len() - 1]));
    } else {
        assert(s.take(k) =~= s);
        lemma_digits_value_nonneg(s);
    }
}

proof fn lemma_digits_value_nonneg(s: Seq<char>)
    requires
        all_digits(s),
    ensures
        digits_value(s) >= 0,
    decreases s.len(),
{
    if s.len() > 0 {
        let d = s.drop_last();
        assert(all_digits(d)) by {
            assert forall|m: int| 0 <= m < d.len() implies is_ascii_digit(#[trigger] d[m]) by {
                assert(d[m] == s[m]);
            }
        }
        lemma_digits_value_nonneg(d);
        assert(is_ascii_digit(s[s.len() - 1]));
    }
}

/// Parses a decimal `usize` the way `usize::from_str` does.
pub fn parse_usize(s: &Vec<char>, from: usize) -> (res: Option<usize>)
    requires
        from <= s@.len(),
    ensures
        res == spec_parse_usize(s@.skip(from as int)),
{
    let ghost whole = s@.skip(from as int);
    let n = s.len();
    let mut start = from;
    if start < n && s[start] == '+' {
        start = start + 1;
    }
    let ghost body = s@.skip(start as int);
    assert(body =~= if whole.len() > 0 && whole[0] == '+' { whole.drop_first() } else { whole });
    if start == n {
        assert(body.len() == 0);
        return None;
    }
    let mut k = start;
    while k < n
        invariant
            start <= k <= n == s@.len(),
            body == s@.skip(start as int),
            spec_parse_usize(s@.skip(from as int)) == (if body.len() > 0 && all_digits(body) && digits_value(body) <= usize::MAX {
                Some(digits_value(body) as usize)
            } else {
                None
            }),
            forall|m: int| start <= m < k ==> is_ascii_digit(#[trigger] s@[m]),
        decreases n - k,
    {
        if !('0' <= s[k] && s[k] <= '9') {
            assert(body[k - start] == s@[k as int]);
            assert(!is_ascii_digit(body[k - start]));
            assert(!all_digits(body));
            return None;
        }
        k = k + 1;
    }
    assert(all_digits(body)) by {
        assert forall|m: int| 0 <= m < body.len() implies is_ascii_digit(#[trigger] body[m]) by {
            assert(body[m] == s@[start + m]);
        }
    }
    let mut value: usize = 0;
    let mut k = start;
    while k < n
        invariant
            start <= k <= n == s@.len(),
            body == s@.skip(start as int),
            spec_parse_usize(s@.skip(from as int)) == (if body.len() > 0 && all_digits(body) && digits_value(body) <= usize::MAX {
                Some(digits_value(body) as usize)
            } else {
                None
            }),
            all_digits(body),
            value as int == digits_value(body.take(k - start)),
        decreases n - k,
    {
        assert(body[k - start] == s@[k as int]);
        assert(is_ascii_digit(body[k - start]));
        let d = (s[k] as u32 - '0' as u32) as usize;
        assert(body.take(k - start + 1).drop_last() =~= body.take(k - start));
        assert(body.take(k - start + 1).last() == s@[k as int]);
        assert(d as int == s@[k as int] as int - '0' as int);
        assert(digits_value(body.take(k - start + 1)) == value as int * 10 + d as int);
        match value.checked_mul(10) {
            Some(v) => match v.checked_add(d) {
                Some(w) => {
                    value = w;
                },
                None => {
                    proof { lemma_digits_value_prefix(body, k - start + 1); }
                    assert(digits_value(body) > usize::MAX);
                    return None;
                },
            },
            None => {
                proof {
                    lemma_digits_value_prefix(body, k - start + 1);
                }
                assert(value as int * 10 > usize::MAX);
                assert(digits_value(body) > usize::MAX);
                return None;
            },
        }
        k = k + 1;
    }
    assert(body.take(n - start) =~= body);
    Some(value)
}

/// Whether `snippet` occurs in `full` at position `k`.
pub open spec fn occurs_at(full: Seq<char>, snippet: Seq<char>, k: int) -> bool {
    0 <= k && k + snippet.len() <= full.len() && full.subrange(k, k + snippet.len()) == snippet
}

/// The first position at or after `k` where `snippet` occurs in `full`.
pub open spec fn find_from(full: Seq<char>, snippet: Seq<char>, k: int) -> Option<int>
    decreases full.len() + 1 - k,
{
    if k < 0 || k + snippet.len() > full.len() {
        None
    } else if occurs_at(full, snippet, k) {
        Some(k)
    } else {
        find_from(full, snippet, k + 1)
    }
}

/// The context around the first occurrence of `snippet` in `full`: up to 80 characters before
/// it and up to 80 after it, each dropped when empty. No context when the snippet is empty or
/// the whole text; nothing when it does not occur.
pub open spec fn spec_split_context_window(full: Seq<char>, snippet: Seq<char>) -> Option<(Option<Seq<char>>, Option<Seq<char>>)> {
    if snippet.len() == 0 || full == snippet {
        Some((None, None))
    } else {
        match find_from(full, snippet, 0) {
            Some(start) => Some((
                spec_empty_to_none(take_last(full.take(start), 80)),
                spec_empty_to_none(take_first(full.skip(start + snippet.len()), 80)),
            )),
            None => None,
        }
    }
}

fn occurs_at_exec(full: &Vec<char>, snippet: &Vec<char>, k: usize) -> (res: bool)
    requires
        k + snippet@.len() <= full@.len(),
    ensures
        res == occurs_at(full@, snippet@, k as int),
{
    let m = snippet.len();
    let n = full.len();
    let mut q: usize = 0;
    while q < m
        invariant
            m == snippet@.len(),
            n == full@.len(),
            k + m <= full@.len(),
            q <= m,
            forall|r: int| 0 <= r < q ==> full@[k + r] == snippet@[r],
        decreases m - q,
    {
        if full[k + q] != snippet[q] {
            assert(full@.subrange(k as int, k + m)[q as int] != snippet@[q as int]);
            return false;
        }
        q = q + 1;
    }
    assert(full@.subrange(k as int, k + m) =~= snippet@);
    true
}

fn chars_subrange(v: &Vec<char>, a: usize, b: usize) -> (res: Vec<char>)
    requires
        a <= b <= v@.len(),
    ensures
        res@ == v@.subrange(a as int, b as int),
{
    let mut out: Vec<char> = Vec::new();
    let mut k = a;
    while k < b
        invariant
            a <= k <= b <= v@.len(),
            out@ == v@.subrange(a as int, k as int),
        decreases b - k,
    {
        out.push(v[k]);
        assert(out@ =~= v@.subrange(a as int, k + 1));
        k = k + 1;
    }
    out
}

fn opt_chars_string(v: &Vec<char>) -> (res: Option<String>)
    ensures
        opt_str_view(res) == spec_empty_to_none(v@),
{
    if v.len() == 0 {
        None
    } else {
        Some(string_from_chars(v))
    }
}

/// Splits the text around the first occurrence of `snippet` into the context before and after it.
pub fn split_context_window(full: &str, snippet: &str) -> (res: Option<(Option<String>, Option<String>)>)
    ensures
        match res {
            Some((b, a)) => spec_split_context_window(full@, snippet@) == Some((opt_str_view(b), opt_str_view(a))),
            None => spec_split_context_window(full@, snippet@) is None,
        },
{
    let f = str_chars(full);
    let sn = str_chars(snippet);
    if sn.len() == 0 || chars_equal(&f, &sn) {
        return Some((None, None));
    }
    if sn.len() > f.len() {
        return None;
    }
    let fl = f.len();
    let last = fl - sn.len();
    let mut k: usize = 0;
    while k <= last
        invariant
            fl == f@.len(),
            f@ == full@,
            sn@ == snippet@,
            sn@.len() > 0,
            f@ != sn@,
            last == f@.len() - sn@.len(),
            sn@.len() <= f@.len(),
            k <= last + 1,
            find_from(f@, sn@, k as int) == find_from(f@, sn@, 0),
        decreases last + 1 - k,
    {
        if occurs_at_exec(&f, &sn, k) {
            let before_start = if k > 80 { k - 80 } else { 0 };
            let before = chars_subrange(&f, before_start, k);
            let end = k + sn.len();
            let after_end = if f.len() - end > 80 { end + 80 } else { f.len() };
            let after = chars_subrange(&f, end, after_end);
            assert(before@ =~= take_last(f@.take(k as int), 80));
            assert(after@ =~= take_first(f@.skip(end as int), 80));
            assert(find_from(f@, sn@, k as int) == Some(k as int));
            let b = opt_chars_string(&before);
            let a = opt_chars_string(&after);
            assert(spec_split_context_window(full@, snippet@) == Some((opt_str_view(b), opt_str_view(a))));
            return Some((b, a));
        }
        if k == last {
            assert(find_from(f@, sn@, k + 1) is None);
            return None;
        }
        k = k + 1;
    }
    None
}

} // verus!
