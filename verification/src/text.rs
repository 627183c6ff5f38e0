//! Text: characters, trimming, case, joining and decimal numbers.
use vstd::prelude::*;

verus! {

/// `String::push` (std): the string afterwards is the string before with the character
/// appended, as std documents.
pub assume_specification[ std::string::String::push ](s: &mut std::string::String, ch: char)
    ensures
        final(s)@ == old(s)@.push(ch),
;

/// `String::push_str` (std): the string afterwards is the string before followed by the
/// slice, as std documents.
pub assume_specification[ std::string::String::push_str ](s: &mut std::string::String, string: &str)
    ensures
        final(s)@ == old(s)@ + string@,
;

/// The characters of a string slice, as a vector.
pub fn chars_of(s: &str) -> (out: Vec<char>)
    ensures
        out@ == s@,
{
    let mut out: Vec<char> = Vec::new();
    for c in it: s.chars()
        invariant
            out@ == it.seq().take(it.index() as int),
    {
        out.push(c);
    }
    out
}

/// A string made of the given characters.
pub fn string_of(cs: &Vec<char>) -> (out: String)
    ensures
        out@ == cs@,
{
    let mut out = String::new();
    let n = cs.len();
    for i in 0..n
        invariant
            n == cs@.len(),
            out@ == cs@.take(i as int),
    {
        out.push(cs[i]);
        assert(cs@.take(i as int).push(cs@[i as int]) =~= cs@.take(i + 1));
    }
    assert(cs@.take(n as int) =~= cs@);
    out
}


/// Unicode `White_Space`, the property that `char::is_whitespace` tests.
pub open spec fn is_ws(c: char) -> bool {
    ('\u{9}' <= c && c <= '\u{d}') || c == ' ' || c == '\u{85}' || c == '\u{a0}' || c == '\u{1680}'
        || ('\u{2000}' <= c && c <= '\u{200a}') || c == '\u{2028}' || c == '\u{2029}' || c
        == '\u{202f}' || c == '\u{205f}' || c == '\u{3000}'
}

pub fn is_whitespace(c: char) -> (r: bool)
    ensures
        r == is_ws(c),
{
    ('\u{9}' <= c && c <= '\u{d}') || c == ' ' || c == '\u{85}' || c == '\u{a0}' || c == '\u{1680}'
        || ('\u{2000}' <= c && c <= '\u{200a}') || c == '\u{2028}' || c == '\u{2029}' || c
        == '\u{202f}' || c == '\u{205f}' || c == '\u{3000}'
}

/// Every character is whitespace (so the trimmed string is empty).
pub open spec fn all_ws(s: Seq<char>) -> bool {
    forall|i: int| 0 <= i < s.len() ==> is_ws(#[trigger] s[i])
}

/// Number of whitespace characters at the start.
pub open spec fn leading_ws(s: Seq<char>) -> nat
    decreases s.len(),
{
    if s.len() > 0 && is_ws(s[0]) {
        1 + leading_ws(s.drop_first())
    } else {
        0
    }
}

/// Number of whitespace characters at the end.
pub open spec fn trailing_ws(s: Seq<char>) -> nat
    decreases s.len(),
{
    if s.len() > 0 && is_ws(s.last()) {
        1 + trailing_ws(s.drop_last())
    } else {
        0
    }
}

/// `s` without trailing whitespace (`str::trim_end`).
pub open spec fn trim_end_seq(s: Seq<char>) -> Seq<char> {
    s.subrange(0, s.len() - trailing_ws(s))
}

/// `s` without leading and trailing whitespace (`str::trim`).
pub open spec fn trim_seq(s: Seq<char>) -> Seq<char> {
    trim_end_seq(s.skip(leading_ws(s) as int))
}

proof fn lemma_leading_ws_bound(s: Seq<char>)
    ensures
        leading_ws(s) <= s.len(),
        forall|i: int| 0 <= i < leading_ws(s) ==> is_ws(#[trigger] s[i]),
        leading_ws(s) < s.len() ==> !is_ws(s[leading_ws(s) as int]),
    decreases s.len(),
{
    if s.len() > 0 && is_ws(s[0]) {
        lemma_leading_ws_bound(s.drop_first());
        assert forall|i: int| 0 <= i < leading_ws(s) implies is_ws(#[trigger] s[i]) by {
            if i > 0 {
                assert(s[i] == s.drop_first()[i - 1]);
            }
        }
    }
}

proof fn lemma_trailing_ws_bound(s: Seq<char>)
    ensures
        trailing_ws(s) <= s.len(),
        forall|i: int| s.len() - trailing_ws(s) <= i < s.len() ==> is_ws(#[trigger] s[i]),
        trailing_ws(s) < s.len() ==> !is_ws(s[s.len() - trailing_ws(s) - 1]),
    decreases s.len(),
{
    if s.len() > 0 && is_ws(s.last()) {
        lemma_trailing_ws_bound(s.drop_last());
        assert forall|i: int| s.len() - trailing_ws(s) <= i < s.len() implies is_ws(#[trigger] s[i]) by {
            if i < s.len() - 1 {
                assert(s[i] == s.drop_last()[i]);
            }
        }
    }
}

/// Number of leading whitespace characters of `cs[from..]`.
fn count_leading_ws(cs: &Vec<char>) -> (n: usize)
    ensures
        n == leading_ws(cs@),
{
    let mut i: usize = 0;
    assert(cs@.skip(0) =~= cs@);
    while i < cs.len() && is_whitespace(cs[i])
        invariant
            i <= cs@.len(),
            leading_ws(cs@) == i + leading_ws(cs@.skip(i as int)),
        decreases cs@.len() - i,
    {
        assert(cs@.skip(i as int).drop_first() =~= cs@.skip(i + 1));
        i = i + 1;
    }
    proof {
        if i < cs@.len() {
            assert(cs@.skip(i as int)[0] == cs@[i as int]);
        }
    }
    i
}

fn count_trailing_ws(cs: &Vec<char>) -> (n: usize)
    ensures
        n == trailing_ws(cs@),
{
    let mut k: usize = cs.len();
    assert(cs@.take(k as int) =~= cs@);
    while k > 0 && is_whitespace(cs[k - 1])
        invariant
            k <= cs@.len(),
            trailing_ws(cs@) == (cs@.len() - k) + trailing_ws(cs@.take(k as int)),
        decreases k,
    {
        assert(cs@.take(k as int).drop_last() =~= cs@.take(k - 1));
        assert(cs@.take(k as int).last() == cs@[k - 1]);
        k = k - 1;
    }
    proof {
        if k > 0 {
            assert(cs@.take(k as int).last() == cs@[k - 1]);
        }
        assert(cs@.take(cs@.len() as int) =~= cs@);
    }
    (cs.len() - k) as usize
}

/// `str::trim`: the string without leading and trailing whitespace.
pub fn trim(s: &str) -> (r: String)
    ensures
        r@ == trim_seq(s@),
{
    let cs = chars_of(s);
    let start = count_leading_ws(&cs);
    proof {
        lemma_leading_ws_bound(cs@);
    }
    let mut rest: Vec<char> = Vec::new();
    let n = cs.len();
    for i in start..n
        invariant
            n == cs@.len(),
            start <= n,
            rest@ == cs@.subrange(start as int, i as int),
    {
        rest.push(cs[i]);
        assert(rest@ =~= cs@.subrange(start as int, i + 1));
    }
    assert(rest@ =~= cs@.skip(start as int));
    let t = count_trailing_ws(&rest);
    proof {
        lemma_trailing_ws_bound(rest@);
    }
    let keep = rest.len() - t;
    let mut out: Vec<char> = Vec::new();
    for i in 0..keep
        invariant
            keep <= rest@.len(),
            out@ == rest@.subrange(0, i as int),
    {
        out.push(rest[i]);
        assert(out@ =~= rest@.subrange(0, i + 1));
    }
    string_of(&out)
}

/// `str::trim_end`: the string without trailing whitespace.
pub fn trim_end(s: &str) -> (r: String)
    ensures
        r@ == trim_end_seq(s@),
{
    let cs = chars_of(s);
    let t = count_trailing_ws(&cs);
    proof {
        lemma_trailing_ws_bound(cs@);
    }
    let keep = cs.len() - t;
    let mut out: Vec<char> = Vec::new();
    for i in 0..keep
        invariant
            keep <= cs@.len(),
            out@ == cs@.subrange(0, i as int),
    {
        out.push(cs[i]);
        assert(out@ =~= cs@.subrange(0, i + 1));
    }
    string_of(&out)
}

/// Whitespace is Unicode `White_Space`, as `char::is_whitespace` has it. Among ASCII
/// characters exactly space, tab, line feed, vertical tab, form feed and carriage return
/// are whitespace; beyond ASCII, U+0085, U+00A0, U+1680, U+2000 to U+200A, U+2028, U+2029,
/// U+202F, U+205F and U+3000 are, and letters, digits and the zero-width space U+200B are not.
pub proof fn lemma_whitespace_is_unicode_white_space()
    ensures
        forall|c: char| c < '\u{80}' ==> (is_ws(c) <==> (c == ' ' || c == '\t' || c == '\n' || c
            == '\u{b}' || c == '\u{c}' || c == '\r')),
        is_ws('\u{85}') && is_ws('\u{a0}') && is_ws('\u{1680}') && is_ws('\u{2028}') && is_ws('\u{2029}')
            && is_ws('\u{202f}') && is_ws('\u{205f}') && is_ws('\u{3000}'),
        forall|c: char| '\u{2000}' <= c <= '\u{200a}' ==> is_ws(c),
        !is_ws('\u{200b}') && !is_ws('\u{feff}') && !is_ws('\u{180e}'),
{
}

/// Trimming the end removes exactly the trailing whitespace: what is kept is a prefix of the
/// string that is empty or ends in a character that is not whitespace, and every character
/// removed is whitespace. So a line ending, `\n` or `\r\n`, never survives trimming.
pub proof fn lemma_trim_end_removes_trailing_ws(s: Seq<char>)
    ensures
        trim_end_seq(s).len() <= s.len(),
        trim_end_seq(s) == s.subrange(0, trim_end_seq(s).len() as int),
        forall|i: int| trim_end_seq(s).len() <= i < s.len() ==> is_ws(#[trigger] s[i]),
        trim_end_seq(s).len() > 0 ==> !is_ws(trim_end_seq(s).last()),
        trim_end_seq(s + seq!['\n']) == trim_end_seq(s),
        trim_end_seq(s + seq!['\r', '\n']) == trim_end_seq(s),
{
    lemma_trailing_ws_bound(s);
    let t = s + seq!['\n'];
    assert(t.last() == '\n' && t.drop_last() =~= s);
    assert(trailing_ws(t) == 1 + trailing_ws(s));
    assert(trim_end_seq(t) =~= trim_end_seq(s));
    let u = s + seq!['\r', '\n'];
    assert(u.last() == '\n' && u.drop_last() =~= s + seq!['\r']);
    let v = s + seq!['\r'];
    assert(v.last() == '\r' && v.drop_last() =~= s);
    assert(trailing_ws(v) == 1 + trailing_ws(s));
    assert(trailing_ws(u) == 2 + trailing_ws(s));
    assert(trim_end_seq(u) =~= trim_end_seq(s));
}

/// Trimming both ends removes exactly the leading and the trailing whitespace: what is kept
/// is a contiguous part of the string, every character before and after it is whitespace,
/// and unless it is empty it starts and ends with a character that is not whitespace.
pub proof fn lemma_trim_removes_surrounding_ws(s: Seq<char>)
    ensures
        leading_ws(s) + trim_seq(s).len() <= s.len(),
        trim_seq(s) == s.subrange(leading_ws(s) as int, leading_ws(s) + trim_seq(s).len() as int),
        forall|i: int| 0 <= i < leading_ws(s) ==> is_ws(#[trigger] s[i]),
        forall|i: int| leading_ws(s) + trim_seq(s).len() <= i < s.len() ==> is_ws(#[trigger] s[i]),
        trim_seq(s).len() > 0 ==> !is_ws(trim_seq(s)[0]) && !is_ws(trim_seq(s).last()),
{
    lemma_leading_ws_bound(s);
    let k = leading_ws(s) as int;
    let rest = s.skip(k);
    lemma_trailing_ws_bound(rest);
    assert forall|i: int| k + trim_seq(s).len() <= i < s.len() implies is_ws(#[trigger] s[i]) by {
        assert(s[i] == rest[i - k]);
    }
    assert(trim_seq(s) =~= s.subrange(k, k + trim_seq(s).len()));
    if trim_seq(s).len() > 0 {
        assert(trim_seq(s)[0] == s[k]);
    }
}

/// The trimmed string is empty exactly when every character is whitespace.
pub proof fn lemma_trim_empty(s: Seq<char>)
    ensures
        trim_seq(s).len() == 0 <==> all_ws(s),
{
    lemma_leading_ws_bound(s);
    let rest = s.skip(leading_ws(s) as int);
    lemma_trailing_ws_bound(rest);
    if all_ws(s) {
        if leading_ws(s) < s.len() {
            assert(!is_ws(s[leading_ws(s) as int]));
        }
    }
    if trim_seq(s).len() == 0 {
        assert forall|i: int| 0 <= i < s.len() implies is_ws(#[trigger] s[i]) by {
            if i >= leading_ws(s) {
                assert(s[i] == rest[i - leading_ws(s)]);
            }
        }
    }
}

/// Whether every character is whitespace.
pub fn is_blank(s: &str) -> (r: bool)
    ensures
        r == all_ws(s@),
{
    let cs = chars_of(s);
    let n = cs.len();
    for i in 0..n
        invariant
            n == cs@.len(),
            cs@ == s@,
            forall|j: int| 0 <= j < i ==> is_ws(#[trigger] cs@[j]),
    {
        if !is_whitespace(cs[i]) {
            return false;
        }
    }
    true
}

/// ASCII lowercase of a character (other characters are unchanged).
pub open spec fn ascii_lower(c: char) -> char {
    if 'A' <= c && c <= 'Z' {
        ((c as u32) + 32) as char
    } else {
        c
    }
}

/// ASCII lowercase of a string.
pub open spec fn ascii_lower_seq(s: Seq<char>) -> Seq<char> {
    s.map_values(|c: char| ascii_lower(c))
}

pub fn to_ascii_lower(c: char) -> (r: char)
    ensures
        r == ascii_lower(c),
{
    if 'A' <= c && c <= 'Z' {
        ((c as u8) + 32) as char
    } else {
        c
    }
}

/// `str::to_ascii_lowercase`.
pub fn ascii_lowercase(s: &str) -> (r: String)
    ensures
        r@ == ascii_lower_seq(s@),
{
    let cs = chars_of(s);
    let n = cs.len();
    let mut out: Vec<char> = Vec::new();
    for i in 0..n
        invariant
            n == cs@.len(),
            cs@ == s@,
            out@ == ascii_lower_seq(cs@.take(i as int)),
    {
        out.push(to_ascii_lower(cs[i]));
        assert(out@ =~= ascii_lower_seq(cs@.take(i + 1)));
    }
    assert(cs@.take(n as int) =~= cs@);
    string_of(&out)
}

/// `str::eq_ignore_ascii_case`.
pub fn eq_ignore_ascii_case(a: &str, b: &str) -> (r: bool)
    ensures
        r == (ascii_lower_seq(a@) == ascii_lower_seq(b@)),
{
    let la = ascii_lowercase(a);
    let lb = ascii_lowercase(b);
    la == lb
}

/// The string as an owned `String`, with the same characters.
pub fn str_eq(a: &str, b: &str) -> (r: bool)
    ensures
        r == (a@ == b@),
{
    let sa = a.to_string();
    let sb = b.to_string();
    sa == sb
}


/// Whether `char::is_alphanumeric` holds of a character (Unicode `Alphabetic` or `Numeric`).
pub uninterp spec fn unicode_alphanumeric(c: char) -> bool;

/// ASCII letters and digits.
pub open spec fn ascii_alphanumeric(c: char) -> bool {
    ('a' <= c && c <= 'z') || ('A' <= c && c <= 'Z') || ('0' <= c && c <= '9')
}

/// Calls `char::is_alphanumeric`. Its result is named `unicode_alphanumeric`; of it the
/// contract states only what std documents for ASCII: there it holds exactly of letters and
/// digits. Which other characters are alphanumeric is left to the Unicode tables.
#[verifier::external_body]
pub(crate) fn is_alphanumeric(c: char) -> (r: bool)
    ensures
        r == unicode_alphanumeric(c),
        c < '\u{80}' ==> (r <==> ascii_alphanumeric(c)),
{
    c.is_alphanumeric()
}

/// The character sequences of a sequence of strings.
pub open spec fn strings_view(s: Seq<String>) -> Seq<Seq<char>> {
    s.map_values(|x: String| x@)
}

/// Strings joined with a separator between each two.
pub open spec fn join_with(items: Seq<Seq<char>>, sep: Seq<char>) -> Seq<char>
    decreases items.len(),
{
    if items.len() == 0 {
        Seq::empty()
    } else if items.len() == 1 {
        items[0]
    } else {
        join_with(items.drop_last(), sep) + sep + items.last()
    }
}

/// `[String]::join`.
pub fn join_strings(items: &Vec<String>, sep: &str) -> (r: String)
    ensures
        r@ == join_with(strings_view(items@), sep@),
{
    let ghost v = strings_view(items@);
    let mut out = String::new();
    let n = items.len();
    for i in 0..n
        invariant
            n == items@.len(),
            v == strings_view(items@),
            out@ == join_with(v.take(i as int), sep@),
    {
        if i > 0 {
            out.push_str(sep);
        }
        out.push_str(items[i].as_str());
        proof {
            let t = v.take(i + 1);
            assert(t.drop_last() =~= v.take(i as int));
            assert(t.last() == v[i as int]);
            if i == 0 {
                assert(v.take(0) =~= Seq::<Seq<char>>::empty());
            }
        }
        assert(out@ =~= join_with(v.take(i + 1), sep@));
    }
    assert(v.take(n as int) =~= v);
    out
}

/// The characters of an optional string.
pub open spec fn opt_string_view(o: Option<String>) -> Option<Seq<char>> {
    match o {
        Some(s) => Some(s@),
        None => None,
    }
}

/// A copy of an optional string.
pub fn clone_opt_string(o: &Option<String>) -> (r: Option<String>)
    ensures
        opt_string_view(r) == opt_string_view(*o),
{
    match o {
        Some(s) => Some(s.clone()),
        None => None,
    }
}

/// The decimal digit of a number below ten.
pub open spec fn digit_char(d: nat) -> char {
    if d == 0 { '0' } else if d == 1 { '1' } else if d == 2 { '2' } else if d == 3 { '3' } else if d == 4 {
        '4'
    } else if d == 5 { '5' } else if d == 6 { '6' } else if d == 7 { '7' } else if d == 8 { '8' } else { '9' }
}

/// The decimal notation of a natural number, without leading zeros.
pub open spec fn decimal(n: nat) -> Seq<char>
    decreases n,
{
    if n < 10 {
        seq![digit_char(n)]
    } else {
        decimal(n / 10).push(digit_char(n % 10))
    }
}

fn digit_of(d: u64) -> (c: char)
    requires
        d < 10,
    ensures
        c == digit_char(d as nat),
{
    if d == 0 { '0' } else if d == 1 { '1' } else if d == 2 { '2' } else if d == 3 { '3' } else if d == 4 {
        '4'
    } else if d == 5 { '5' } else if d == 6 { '6' } else if d == 7 { '7' } else if d == 8 { '8' } else { '9' }
}

/// The decimal notation of a number (`u64::to_string`).
pub fn decimal_string(n: u64) -> (r: String)
    ensures
        r@ == decimal(n as nat),
{
    // `rev` holds the digits found so far, least significant first.
    let mut rev: Vec<char> = Vec::new();
    let mut m = n;
    let ghost mut suffix: Seq<char> = Seq::empty();
    while m >= 10
        invariant
            decimal(n as nat) == decimal(m as nat) + suffix,
            rev@.len() == suffix.len(),
            forall|i: int| 0 <= i < suffix.len() ==> #[trigger] rev@[i] == suffix[suffix.len() - 1 - i],
        decreases m,
    {
        let d = m % 10;
        let c = digit_of(d);
        rev.push(c);
        proof {
            assert(decimal(m as nat) == decimal((m / 10) as nat).push(c));
            assert(decimal((m / 10) as nat).push(c) + suffix =~= decimal((m / 10) as nat) + (seq![c] + suffix));
            suffix = seq![c] + suffix;
        }
        m = m / 10;
    }
    let c = digit_of(m);
    rev.push(c);
    proof {
        assert(decimal(m as nat) == seq![c]);
        suffix = seq![c] + suffix;
    }
    assert(decimal(n as nat) =~= suffix);
    let mut out = String::new();
    let k = rev.len();
    let mut i = k;
    while i > 0
        invariant
            i <= k,
            k == rev@.len(),
            k == suffix.len(),
            forall|j: int| 0 <= j < suffix.len() ==> #[trigger] rev@[j] == suffix[suffix.len() - 1 - j],
            out@ == suffix.take(k - i),
        decreases i,
    {
        i = i - 1;
        out.push(rev[i]);
        assert(rev@[i as int] == suffix[k - 1 - i]);
        assert(out@ =~= suffix.take(k - i));
    }
    assert(suffix.take(k as int) =~= suffix);
    out
}

/// `needle` occurs in `hay`.
pub open spec fn has_substring(hay: Seq<char>, needle: Seq<char>) -> bool {
    exists|i: int| 0 <= i && i + needle.len() <= hay.len() && #[trigger] hay.subrange(i, i + needle.len()) == needle
}

/// `str::contains` for a string pattern.
pub fn contains_str(hay: &str, needle: &str) -> (r: bool)
    ensures
        r == has_substring(hay@, needle@),
{
    let h = chars_of(hay);
    let n = chars_of(needle);
    if n.len() > h.len() {
        return false;
    }
    let last = h.len() - n.len();
    assert(h@.len() == h.len());
    let mut i: usize = 0;
    while i <= last
        invariant
            h@ == hay@,
            n@ == needle@,
            n@.len() <= h@.len(),
            h@.len() <= usize::MAX,
            last == h@.len() - n@.len(),
            forall|k: int| 0 <= k < i ==> #[trigger] h@.subrange(k, k + n@.len()) != n@,
        decreases last + 1 - i,
    {
        let mut j: usize = 0;
        let mut same = true;
        while j < n.len()
            invariant
                h@ == hay@,
                n@ == needle@,
                i <= last,
                n@.len() <= h@.len(),
                i + n@.len() <= h@.len(),
                h@.len() <= usize::MAX,
                last == h@.len() - n@.len(),
                j <= n@.len(),
                same == (forall|k: int| 0 <= k < j ==> h@[i + k] == n@[k]),
            decreases n@.len() - j,
        {
            if h[i + j] != n[j] {
                same = false;
            }
            j = j + 1;
        }
        if same {
            assert(h@.subrange(i as int, i + n@.len()) =~= n@);
            return true;
        }
        proof {
            let k0 = choose|k: int| 0 <= k < n@.len() && h@[i + k] != n@[k];
            assert(h@.subrange(i as int, i + n@.len())[k0] != n@[k0]);
        }
        if i == last {
            assert(forall|k: int| 0 <= k <= i ==> #[trigger] h@.subrange(k, k + n@.len()) != n@);
            return false;
        }
        i = i + 1;
    }
    false
}

} // verus!
