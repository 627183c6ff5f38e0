//! Mapping preset names to file names.
use vstd::prelude::*;
use crate::path::{join, join_path};
use crate::text::chars_of;
use vstd::utf8::encode_utf8;

verus! {

/// RFC 3986 "unreserved" bytes: `A-Z a-z 0-9 - _ . ~`.
pub open spec fn is_unreserved(b: u8) -> bool {
    (65 <= b && b <= 90) || (97 <= b && b <= 122) || (48 <= b && b <= 57) || b == 45 || b == 95
        || b == 46 || b == 126
}

/// The uppercase hexadecimal digit for `n < 16`.
pub open spec fn hex_digit(n: u8) -> char {
    if n < 10 {
        (48 + n) as char
    } else {
        (55 + n) as char
    }
}

/// An unreserved byte stands for itself; any other byte becomes `%XX`.
pub open spec fn encode_byte(b: u8) -> Seq<char> {
    if is_unreserved(b) {
        seq![b as char]
    } else {
        seq!['%', hex_digit(b / 16), hex_digit(b % 16)]
    }
}

/// Percent-encoding of a byte sequence.
pub open spec fn percent_encode(bytes: Seq<u8>) -> Seq<char>
    decreases bytes.len(),
{
    if bytes.len() == 0 {
        seq![]
    } else {
        encode_byte(bytes[0]) + percent_encode(bytes.drop_first())
    }
}

/// The file-name stem for a preset name: the percent-encoding of its UTF-8 bytes,
/// with the empty stem and the special components `.` and `..` escaped.
pub open spec fn filename_stem(name: Seq<char>) -> Seq<char> {
    let e = percent_encode(encode_utf8(name));
    if e.len() == 0 {
        seq!['%', '0', '0']
    } else if e == seq!['.'] {
        seq!['%', '2', 'E']
    } else if e == seq!['.', '.'] {
        seq!['%', '2', 'E', '%', '2', 'E']
    } else {
        e
    }
}

/// `name` followed by `.json`.
pub open spec fn json_file_name(stem: Seq<char>) -> Seq<char> {
    stem + seq!['.', 'j', 's', 'o', 'n']
}

/// A name can be used directly as a file stem: non-empty, no NUL, no path
/// separator, and not `.` or `..`.
pub open spec fn legacy_filename_safe(name: Seq<char>) -> bool {
    &&& name.len() > 0
    &&& !name.contains('\0')
    &&& !name.contains('/')
    &&& !name.contains('\\')
    &&& name != seq!['.']
    &&& name != seq!['.', '.']
}

proof fn lemma_percent_encode_push(bytes: Seq<u8>, b: u8)
    ensures
        percent_encode(bytes.push(b)) == percent_encode(bytes) + encode_byte(b),
    decreases bytes.len(),
{
    if bytes.len() == 0 {
        let pb = bytes.push(b);
        assert(pb.drop_first() =~= Seq::<u8>::empty());
        assert(pb[0] == b);
        assert(percent_encode(pb.drop_first()) == Seq::<char>::empty());
        assert(percent_encode(pb) =~= encode_byte(b));
    } else {
        lemma_percent_encode_push(bytes.drop_first(), b);
        assert(bytes.push(b).drop_first() =~= bytes.drop_first().push(b));
        assert(percent_encode(bytes.push(b)) =~= percent_encode(bytes) + encode_byte(b));
    }
}

fn unreserved(b: u8) -> (r: bool)
    ensures
        r == is_unreserved(b),
{
    (65 <= b && b <= 90) || (97 <= b && b <= 122) || (48 <= b && b <= 57) || b == 45 || b == 95
        || b == 46 || b == 126
}

fn hex(n: u8) -> (c: char)
    requires
        n < 16,
    ensures
        c == hex_digit(n),
{
    if n < 10 {
        (48 + n) as char
    } else {
        (55 + n) as char
    }
}

fn contains_char(cs: &Vec<char>, c: char) -> (r: bool)
    ensures
        r == cs@.contains(c),
{
    let n = cs.len();
    for i in 0..n
        invariant
            n == cs@.len(),
            forall|j: int| 0 <= j < i ==> cs@[j] != c,
    {
        if cs[i] == c {
            assert(cs@[i as int] == c);
            return true;
        }
    }
    false
}

/// Check if a preset name is safe to use as a file name directly (legacy layout).
pub fn is_legacy_filename_safe(name: &str) -> (r: bool)
    ensures
        r == legacy_filename_safe(name@),
{
    let cs = chars_of(name);
    let dot_only = cs.len() == 1 && cs[0] == '.';
    let dots = cs.len() == 2 && cs[0] == '.' && cs[1] == '.';
    proof {
        assert(dot_only == (cs@ =~= seq!['.']));
        assert(dots == (cs@ =~= seq!['.', '.']));
    }
    cs.len() > 0 && !contains_char(&cs, '\0') && !contains_char(&cs, '/') && !contains_char(
        &cs,
        '\\',
    ) && !dot_only && !dots
}

/// Percent-encode a preset name into a filesystem-safe file-name stem.
///
/// Unreserved bytes (`A-Z a-z 0-9 - _ . ~`) are kept; every other byte of the
/// name's UTF-8 encoding becomes `%XX` in uppercase hex. An empty result becomes
/// `%00`, and `.` and `..` become `%2E` and `%2E%2E`.
pub fn preset_filename_stem_for_name(name: &str) -> (stem: String)
    ensures
        stem@ == filename_stem(name@),
{
    let bytes = name.as_bytes();
    let n = bytes.len();
    let mut out: Vec<char> = Vec::new();
    for i in 0..n
        invariant
            n == bytes@.len(),
            bytes@ == encode_utf8(name@),
            out@ == percent_encode(bytes@.take(i as int)),
    {
        let b = bytes[i];
        proof {
            assert(bytes@.take(i + 1) =~= bytes@.take(i as int).push(b));
            lemma_percent_encode_push(bytes@.take(i as int), b);
        }
        if unreserved(b) {
            out.push(b as char);
        } else {
            out.push('%');
            out.push(hex(b / 16));
            out.push(hex(b % 16));
        }
        assert(out@ =~= percent_encode(bytes@.take(i as int)) + encode_byte(b));
    }
    assert(bytes@.take(n as int) =~= bytes@);
    if out.len() == 0 {
        let s = "%00".to_string();
        proof {
            reveal_strlit("%00");
        }
        assert(s@ =~= seq!['%', '0', '0']);
        s
    } else if out.len() == 1 && out[0] == '.' {
        assert(out@ =~= seq!['.']);
        let s = "%2E".to_string();
        proof {
            reveal_strlit("%2E");
        }
        assert(s@ =~= seq!['%', '2', 'E']);
        s
    } else if out.len() == 2 && out[0] == '.' && out[1] == '.' {
        assert(out@ =~= seq!['.', '.']);
        let s = "%2E%2E".to_string();
        proof {
            reveal_strlit("%2E%2E");
        }
        assert(s@ =~= seq!['%', '2', 'E', '%', '2', 'E']);
        s
    } else {
        proof {
            if out@ == seq!['.'] {
                assert(out@.len() == 1);
            }
            if out@ == seq!['.', '.'] {
                assert(out@.len() == 2);
            }
        }
        crate::text::string_of(&out)
    }
}


/// A character that is an unreserved byte on its own: `A-Z a-z 0-9 - _ . ~`.
pub open spec fn is_unreserved_char(c: char) -> bool {
    ('A' <= c && c <= 'Z') || ('a' <= c && c <= 'z') || ('0' <= c && c <= '9') || c == '-' || c
        == '_' || c == '.' || c == '~'
}

/// A "clean" preset name: only unreserved characters, and not empty, `.` or `..`.
pub open spec fn is_clean_name(name: Seq<char>) -> bool {
    &&& forall|i: int| 0 <= i < name.len() ==> is_unreserved_char(#[trigger] name[i])
    &&& name.len() > 0
    &&& name != seq!['.']
    &&& name != seq!['.', '.']
}

proof fn lemma_percent_encode_unreserved(bytes: Seq<u8>)
    requires
        forall|i: int| 0 <= i < bytes.len() ==> is_unreserved(#[trigger] bytes[i]),
    ensures
        percent_encode(bytes).len() == bytes.len(),
        forall|i: int| 0 <= i < bytes.len() ==> #[trigger] percent_encode(bytes)[i] == bytes[i] as char,
    decreases bytes.len(),
{
    if bytes.len() > 0 {
        lemma_percent_encode_unreserved(bytes.drop_first());
        assert forall|i: int| 0 <= i < bytes.len() implies #[trigger] percent_encode(bytes)[i] == bytes[i] as char by {
            if i > 0 {
                assert(percent_encode(bytes)[i] == percent_encode(bytes.drop_first())[i - 1]);
            }
        }
    }
}

/// A clean name is its own file stem, so its file is `<dir>/<name>.json`.
pub proof fn lemma_clean_name_is_own_stem(name: Seq<char>)
    requires
        is_clean_name(name),
    ensures
        filename_stem(name) == name,
{
    assert(vstd::utf8::is_ascii_chars(name)) by {
        assert forall|i: int| 0 <= i < name.len() implies '\0' <= #[trigger] name[i] <= '\u{7f}' by {
            assert(is_unreserved_char(name[i]));
        }
    }
    vstd::utf8::is_ascii_chars_encode_utf8(name);
    let bytes = encode_utf8(name);
    assert forall|i: int| 0 <= i < bytes.len() implies is_unreserved(#[trigger] bytes[i]) by {
        assert(name[i] as u8 == bytes[i]);
        assert(is_unreserved_char(name[i]));
    }
    lemma_percent_encode_unreserved(bytes);
    let e = percent_encode(bytes);
    assert forall|i: int| 0 <= i < name.len() implies #[trigger] e[i] == name[i] by {
        assert(name[i] as u8 == bytes[i]);
        assert(is_unreserved_char(name[i]));
        assert(e[i] == bytes[i] as char);
    }
    assert(e =~= name);
}

/// Every character of a file stem is an unreserved character or `%`.
pub open spec fn stem_chars_ok(stem: Seq<char>) -> bool {
    forall|i: int| 0 <= i < stem.len() ==> (is_unreserved_char(#[trigger] stem[i]) || stem[i] == '%')
}

proof fn lemma_percent_encode_chars(bytes: Seq<u8>)
    ensures
        stem_chars_ok(percent_encode(bytes)),
    decreases bytes.len(),
{
    if bytes.len() > 0 {
        lemma_percent_encode_chars(bytes.drop_first());
        let b = bytes[0];
        let head = encode_byte(b);
        let tail = percent_encode(bytes.drop_first());
        assert(stem_chars_ok(head)) by {
            if is_unreserved(b) {
                assert(head[0] == b as char);
            } else {
                assert(b / 16 < 16 && b % 16 < 16);
            }
        }
        let e = percent_encode(bytes);
        assert(e =~= head + tail);
        assert forall|i: int| 0 <= i < e.len() implies (is_unreserved_char(#[trigger] e[i]) || e[i] == '%') by {
            if i < head.len() {
                assert(e[i] == head[i]);
            } else {
                assert(e[i] == tail[i - head.len()]);
            }
        }
    }
}

/// A file stem never escapes its directory: it is a non-empty single path
/// component other than `.` and `..`, made only of unreserved characters and `%`.
pub proof fn lemma_stem_is_safe_component(name: Seq<char>)
    ensures
        stem_chars_ok(filename_stem(name)),
        legacy_filename_safe(filename_stem(name)),
{
    let e = percent_encode(encode_utf8(name));
    lemma_percent_encode_chars(encode_utf8(name));
    let st = filename_stem(name);
    assert(stem_chars_ok(st)) by {
        if e.len() == 0 {
            assert(st =~= seq!['%', '0', '0']);
        } else if e == seq!['.'] {
            assert(st =~= seq!['%', '2', 'E']);
        } else if e == seq!['.', '.'] {
            assert(st =~= seq!['%', '2', 'E', '%', '2', 'E']);
        }
    }
    assert forall|c: char| c == '\0' || c == '/' || c == '\\' implies !st.contains(c) by {
        if st.contains(c) {
            let i = choose|i: int| 0 <= i < st.len() && st[i] == c;
            assert(is_unreserved_char(st[i]) || st[i] == '%');
        }
    }
    if st == seq!['.'] {
        assert(st.len() == 1);
    }
    if st == seq!['.', '.'] {
        assert(st.len() == 2);
    }
}

proof fn lemma_encode_byte_nonempty(b: u8)
    ensures
        encode_byte(b).len() > 0,
        encode_byte(b)[0] == '%' <==> !is_unreserved(b),
{
    if is_unreserved(b) {
        assert(encode_byte(b)[0] == b as char);
    }
}

proof fn lemma_hex_digit_injective(x: u8, y: u8)
    requires
        x < 16,
        y < 16,
        hex_digit(x) == hex_digit(y),
    ensures
        x == y,
{
}

proof fn lemma_percent_encode_injective(a: Seq<u8>, b: Seq<u8>)
    requires
        percent_encode(a) == percent_encode(b),
    ensures
        a == b,
    decreases a.len() + b.len(),
{
    if a.len() == 0 {
        if b.len() > 0 {
            lemma_encode_byte_nonempty(b[0]);
            assert(percent_encode(b)[0] == encode_byte(b[0])[0]);
        }
        assert(a =~= b);
    } else if b.len() == 0 {
        lemma_encode_byte_nonempty(a[0]);
        assert(percent_encode(a)[0] == encode_byte(a[0])[0]);
    } else {
        let ea = encode_byte(a[0]);
        let eb = encode_byte(b[0]);
        let pa = percent_encode(a);
        lemma_encode_byte_nonempty(a[0]);
        lemma_encode_byte_nonempty(b[0]);
        assert(pa[0] == ea[0]);
        assert(percent_encode(b)[0] == eb[0]);
        if is_unreserved(a[0]) {
            assert(is_unreserved(b[0]));
            assert(ea[0] == a[0] as char && eb[0] == b[0] as char);
            assert(a[0] == b[0]);
        } else {
            assert(!is_unreserved(b[0]));
            assert(pa[1] == ea[1] && pa[2] == ea[2]);
            assert(percent_encode(b)[1] == eb[1] && percent_encode(b)[2] == eb[2]);
            lemma_hex_digit_injective(a[0] / 16, b[0] / 16);
            lemma_hex_digit_injective(a[0] % 16, b[0] % 16);
            assert(a[0] == b[0]);
        }
        assert(ea == eb);
        assert(percent_encode(a.drop_first()) =~= pa.skip(ea.len() as int));
        assert(percent_encode(b.drop_first()) =~= percent_encode(b).skip(eb.len() as int));
        lemma_percent_encode_injective(a.drop_first(), b.drop_first());
        assert(a =~= seq![a[0]] + a.drop_first());
        assert(b =~= seq![b[0]] + b.drop_first());
    }
}

proof fn lemma_encoding_of_stem_special(name: Seq<char>, st: Seq<char>)
    requires
        percent_encode(encode_utf8(name)) == st,
        st == seq!['%', '0', '0'],
    ensures
        name == seq!['\0'],
{
    let bytes = encode_utf8(name);
    let target: Seq<u8> = seq![0u8];
    assert(encode_byte(0u8) =~= seq!['%', '0', '0']);
    assert(percent_encode(target) =~= seq!['%', '0', '0']) by {
        assert(target.drop_first() =~= Seq::<u8>::empty());
        assert(target[0] == 0u8);
        assert(percent_encode(target.drop_first()) == Seq::<char>::empty());
        assert(percent_encode(target) == encode_byte(target[0]) + percent_encode(target.drop_first()));
    }
    lemma_percent_encode_injective(bytes, target);
    vstd::utf8::encode_utf8_decode_utf8(name);
    vstd::utf8::encode_utf8_decode_utf8(seq!['\0']);
    assert(vstd::utf8::is_ascii_chars(seq!['\0']));
    vstd::utf8::is_ascii_chars_encode_utf8(seq!['\0']);
    assert(encode_utf8(seq!['\0']) =~= target);
}

proof fn lemma_no_encoding_is_escaped_dot(bytes: Seq<u8>)
    ensures
        percent_encode(bytes) != seq!['%', '2', 'E'],
        percent_encode(bytes) != seq!['%', '2', 'E', '%', '2', 'E'],
{
    if percent_encode(bytes) == seq!['%', '2', 'E'] || percent_encode(bytes) == seq!['%', '2', 'E', '%', '2', 'E'] {
        let e = percent_encode(bytes);
        assert(e.len() >= 3);
        assert(bytes.len() > 0) by {
            if bytes.len() == 0 {
                assert(e == Seq::<char>::empty());
            }
        }
        lemma_encode_byte_nonempty(bytes[0]);
        let h = encode_byte(bytes[0]);
        assert(e[0] == h[0]);
        assert(!is_unreserved(bytes[0]));
        assert(e[1] == h[1] && e[2] == h[2]);
        assert(hex_digit(bytes[0] / 16) == '2');
        assert(hex_digit(bytes[0] % 16) == 'E');
        assert(bytes[0] == 46);
    }
}


proof fn lemma_nonempty_encodings_equal(a: Seq<char>, b: Seq<char>)
    requires
        filename_stem(a) == filename_stem(b),
        percent_encode(encode_utf8(a)).len() > 0,
        percent_encode(encode_utf8(b)).len() > 0,
    ensures
        percent_encode(encode_utf8(a)) == percent_encode(encode_utf8(b)),
{
    let ea = percent_encode(encode_utf8(a));
    let eb = percent_encode(encode_utf8(b));
    let st = filename_stem(a);
    lemma_no_encoding_is_escaped_dot(encode_utf8(a));
    lemma_no_encoding_is_escaped_dot(encode_utf8(b));
    let dot = seq!['.'];
    let dots = seq!['.', '.'];
    let esc = seq!['%', '2', 'E'];
    let escs = seq!['%', '2', 'E', '%', '2', 'E'];
    assert(esc.len() == 3 && escs.len() == 6);
    assert(dot != dots) by {
        assert(dot.len() != dots.len());
    }
    let sa = if ea == dot { esc } else if ea == dots { escs } else { ea };
    let sb = if eb == dot { esc } else if eb == dots { escs } else { eb };
    assert(filename_stem(a) == sa);
    assert(filename_stem(b) == sb);
    assert(sa == sb);
    if ea == dot {
        if eb != dot {
            if eb == dots {
                assert(esc != escs);
            } else {
                assert(eb == esc);
            }
        }
    } else if ea == dots {
        if eb != dots {
            if eb == dot {
                assert(esc != escs);
            } else {
                assert(eb == escs);
            }
        }
    } else {
        if eb == dot {
            assert(ea == esc);
        } else if eb == dots {
            assert(ea == escs);
        }
    }
}

/// The value of a hexadecimal digit, in either case (0 for any other character).
pub open spec fn hex_value(c: char) -> u8 {
    if '0' <= c && c <= '9' {
        (c as u32 - 48) as u8
    } else if 'A' <= c && c <= 'F' {
        (c as u32 - 55) as u8
    } else if 'a' <= c && c <= 'f' {
        (c as u32 - 87) as u8
    } else {
        0
    }
}

/// Percent-decoding: `%XX` is the byte with hexadecimal value `XX`, and any other character
/// stands for its own byte.
pub open spec fn percent_decode(s: Seq<char>) -> Seq<u8>
    decreases s.len(),
{
    if s.len() == 0 {
        seq![]
    } else if s[0] == '%' && s.len() >= 3 {
        seq![(hex_value(s[1]) * 16 + hex_value(s[2])) as u8] + percent_decode(s.skip(3))
    } else {
        seq![s[0] as u8] + percent_decode(s.drop_first())
    }
}

proof fn lemma_hex_value_of_digit(n: u8)
    requires
        n < 16,
    ensures
        hex_value(hex_digit(n)) == n,
{
}

proof fn lemma_decode_encoded_byte(b: u8, rest: Seq<char>)
    ensures
        percent_decode(encode_byte(b) + rest) == seq![b] + percent_decode(rest),
{
    let t = encode_byte(b) + rest;
    if is_unreserved(b) {
        assert(t[0] == b as char);
        assert((b as char) as u8 == b);
        assert(t.drop_first() =~= rest);
    } else {
        lemma_hex_value_of_digit(b / 16);
        lemma_hex_value_of_digit(b % 16);
        assert(t[0] == '%' && t[1] == hex_digit(b / 16) && t[2] == hex_digit(b % 16));
        assert(t.skip(3) =~= rest);
        assert((b / 16) * 16 + b % 16 == b);
    }
}

/// Percent-decoding undoes percent-encoding.
pub proof fn lemma_percent_decode_encode(bytes: Seq<u8>)
    ensures
        percent_decode(percent_encode(bytes)) == bytes,
    decreases bytes.len(),
{
    if bytes.len() > 0 {
        lemma_percent_decode_encode(bytes.drop_first());
        lemma_decode_encoded_byte(bytes[0], percent_encode(bytes.drop_first()));
        assert(bytes =~= seq![bytes[0]] + bytes.drop_first());
    }
}

/// A preset's file stem percent-decodes to the UTF-8 bytes of its name, and so gives back
/// the name, for every name but the empty one (whose stem `%00` is the NUL character's).
pub proof fn lemma_stem_decodes_to_name(name: Seq<char>)
    requires
        name.len() > 0,
    ensures
        percent_decode(filename_stem(name)) == encode_utf8(name),
        vstd::utf8::decode_utf8(percent_decode(filename_stem(name))) == name,
{
    let bytes = encode_utf8(name);
    let e = percent_encode(bytes);
    vstd::utf8::encode_utf8_decode_utf8(name);
    vstd::utf8::encode_utf8_valid_utf8(name);
    lemma_percent_decode_encode(bytes);
    assert(bytes.len() > 0) by {
        if bytes.len() == 0 {
            assert(bytes =~= Seq::<u8>::empty());
            assert(vstd::utf8::decode_utf8(Seq::<u8>::empty()) =~= Seq::<char>::empty());
        }
    }
    lemma_encode_byte_nonempty(bytes[0]);
    assert(e.len() > 0) by {
        assert(e == encode_byte(bytes[0]) + percent_encode(bytes.drop_first()));
    }
    let dot = seq!['.'];
    let dots = seq!['.', '.'];
    let esc = seq!['%', '2', 'E'];
    let escs = seq!['%', '2', 'E', '%', '2', 'E'];
    assert(('.' as u8) == 46u8);
    assert(dot[0] != '%' && dot[0] as u8 == 46u8);
    assert(percent_decode(Seq::<char>::empty()) =~= Seq::<u8>::empty());
    assert(percent_decode(dot) == seq![dot[0] as u8] + percent_decode(dot.drop_first()));
    if e == dot {
        assert(dot.drop_first() =~= Seq::<char>::empty());
        assert(percent_decode(dot) =~= seq![46u8]);
        assert(esc.skip(3) =~= Seq::<char>::empty());
        assert(percent_decode(esc) =~= seq![46u8]);
    } else if e == dots {
        let one = dots.drop_first();
        assert(one =~= dot);
        assert(dot.drop_first() =~= Seq::<char>::empty());
        assert(percent_decode(dot) =~= seq![46u8]);
        assert(percent_decode(dots) =~= seq![46u8, 46u8]);
        assert(escs.skip(3) =~= esc);
        assert(esc.skip(3) =~= Seq::<char>::empty());
        assert(percent_decode(esc) =~= seq![46u8]);
        assert(percent_decode(escs) =~= seq![46u8, 46u8]);
    }
}

/// Distinct preset names get distinct file stems, with one exception: the empty
/// name and the name made of a single NUL character both map to `%00`.
pub proof fn lemma_stem_injective(a: Seq<char>, b: Seq<char>)
    requires
        filename_stem(a) == filename_stem(b),
        !(a.len() == 0 && b == seq!['\0']),
        !(b.len() == 0 && a == seq!['\0']),
    ensures
        a == b,
{
    let ea = percent_encode(encode_utf8(a));
    let eb = percent_encode(encode_utf8(b));
    lemma_no_encoding_is_escaped_dot(encode_utf8(a));
    lemma_no_encoding_is_escaped_dot(encode_utf8(b));
    vstd::utf8::encode_utf8_decode_utf8(a);
    vstd::utf8::encode_utf8_decode_utf8(b);
    let st = filename_stem(a);
    if ea.len() == 0 || eb.len() == 0 {
        if ea.len() == 0 && eb.len() == 0 {
            lemma_percent_encode_injective(encode_utf8(a), encode_utf8(b));
        } else if ea.len() == 0 {
            // a encodes to nothing, so `a` is empty; `b` must encode to `%00`.
            assert(st =~= seq!['%', '0', '0']);
            assert(encode_utf8(a) =~= Seq::<u8>::empty()) by {
                if encode_utf8(a).len() > 0 {
                    lemma_encode_byte_nonempty(encode_utf8(a)[0]);
                    assert(ea[0] == encode_byte(encode_utf8(a)[0])[0]);
                }
            }
            assert(vstd::utf8::decode_utf8(Seq::<u8>::empty()) =~= Seq::<char>::empty());
            assert(eb != seq!['.'] && eb != seq!['.', '.']) by {
                if eb == seq!['.'] || eb == seq!['.', '.'] {
                    assert(filename_stem(b)[1] != '0');
                }
            }
            assert(eb == seq!['%', '0', '0']);
            lemma_encoding_of_stem_special(b, eb);
        } else {
            assert(st =~= seq!['%', '0', '0']);
            assert(encode_utf8(b) =~= Seq::<u8>::empty()) by {
                if encode_utf8(b).len() > 0 {
                    lemma_encode_byte_nonempty(encode_utf8(b)[0]);
                    assert(eb[0] == encode_byte(encode_utf8(b)[0])[0]);
                }
            }
            assert(vstd::utf8::decode_utf8(Seq::<u8>::empty()) =~= Seq::<char>::empty());
            assert(ea != seq!['.'] && ea != seq!['.', '.']) by {
                if ea == seq!['.'] || ea == seq!['.', '.'] {
                    assert(filename_stem(a)[1] != '0');
                }
            }
            assert(ea == seq!['%', '0', '0']);
            lemma_encoding_of_stem_special(a, ea);
        }
    } else {
        lemma_nonempty_encodings_equal(a, b);
        lemma_percent_encode_injective(encode_utf8(a), encode_utf8(b));
    }
}


/// `<dir>/<stem>.json` with the percent-encoded stem of `name`.
pub open spec fn encoded_preset_path(dir: Seq<char>, name: Seq<char>) -> Seq<char> {
    join_path(dir, json_file_name(filename_stem(name)))
}

/// `<dir>/<name>.json` with the name used as it is.
pub open spec fn legacy_preset_path(dir: Seq<char>, name: Seq<char>) -> Seq<char> {
    join_path(dir, json_file_name(name))
}

/// The paths at which a preset of this name may be stored in `dir`, in the order
/// they are tried: the encoded path, then the legacy one when it is safe and differs.
pub open spec fn candidate_paths(dir: Seq<char>, name: Seq<char>) -> Seq<Seq<char>> {
    let encoded = encoded_preset_path(dir, name);
    let legacy = legacy_preset_path(dir, name);
    if legacy_filename_safe(name) && legacy != encoded {
        seq![encoded, legacy]
    } else {
        seq![encoded]
    }
}

fn json_name(stem: &str) -> (f: String)
    ensures
        f@ == json_file_name(stem@),
{
    let mut f = stem.to_string();
    f.push_str(".json");
    proof {
        reveal_strlit(".json");
    }
    assert(f@ =~= json_file_name(stem@));
    f
}

/// The encoded path of a preset in `dir`.
pub fn preset_path_for_name_encoded(dir: &str, name: &str) -> (p: String)
    ensures
        p@ == encoded_preset_path(dir@, name@),
{
    let stem = preset_filename_stem_for_name(name);
    let file = json_name(stem.as_str());
    join(dir, file.as_str())
}

/// The legacy path of a preset in `dir`: the name used directly as the stem.
pub fn preset_path_for_name_legacy(dir: &str, name: &str) -> (p: String)
    ensures
        p@ == legacy_preset_path(dir@, name@),
{
    let file = json_name(name);
    join(dir, file.as_str())
}

/// The paths at which a preset of this name may be found in `dir`, in lookup order.
pub fn candidate_preset_paths_for_name(dir: &str, name: &str) -> (out: Vec<String>)
    ensures
        out@.map_values(|p: String| p@) == candidate_paths(dir@, name@),
{
    let mut out: Vec<String> = Vec::new();
    let encoded = preset_path_for_name_encoded(dir, name);
    out.push(encoded.clone());
    if is_legacy_filename_safe(name) {
        let legacy = preset_path_for_name_legacy(dir, name);
        if legacy != encoded {
            out.push(legacy);
        }
    }
    assert(out@.map_values(|p: String| p@) =~= candidate_paths(dir@, name@));
    out
}

/// The path for a preset name in `dir` (where it is written).
///
/// A clean name (unreserved characters only, not `.` or `..`) gives
/// `<dir>/<name>.json`; any other name gives a percent-encoded file name.
pub fn preset_path_for_name(dir: &str, name: &str) -> (p: String)
    ensures
        p@ == encoded_preset_path(dir@, name@),
{
    preset_path_for_name_encoded(dir, name)
}

} // verus!
