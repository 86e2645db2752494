use vstd::prelude::*;
use vstd::utf8::{decode_utf8, encode_utf8, is_char_boundary};

verus! {

/// Appends one character to a `String` (std's `String::push`).
/// Trusted: the new contents are the old contents followed by `c`.
#[verifier::external_body]
pub fn push_char(s: &mut String, c: char)
    ensures
        final(s)@ == old(s)@.push(c),
{
    s.push(c);
}

/// The characters of `s`, in order.
pub fn chars_of(s: &str) -> (r: Vec<char>)
    ensures
        r@ == s@,
{
    let mut r: Vec<char> = Vec::new();
    for c in it: s.chars()
        invariant
            r@ == it.seq().take(it.index() as int),
            it.seq() == s@,
    {
        r.push(c);
    }
    r
}

/// Whether `c` has the Unicode `Alphabetic` property: what `char::is_alphabetic` returns.
pub uninterp spec fn char_is_alphabetic(c: char) -> bool;

/// Whether `c` is alphabetic or numeric in the Unicode sense: what
/// `char::is_alphanumeric` returns.
pub uninterp spec fn char_is_alphanumeric(c: char) -> bool;

/// std's `char::is_alphabetic`. Trusted: the result is `char_is_alphabetic(c)`,
/// a name for the Unicode table lookup that std performs.
#[verifier::external_body]
pub fn is_alphabetic(c: char) -> (r: bool)
    ensures
        r == char_is_alphabetic(c),
{
    c.is_alphabetic()
}

/// std's `char::is_alphanumeric`. Trusted: the result is `char_is_alphanumeric(c)`,
/// a name for the Unicode table lookups that std performs.
#[verifier::external_body]
pub fn is_alphanumeric(c: char) -> (r: bool)
    ensures
        r == char_is_alphanumeric(c),
{
    c.is_alphanumeric()
}

/// `char::to_ascii_uppercase`: `a`..`z` become `A`..`Z`, everything else stays.
pub open spec fn ascii_upper(c: char) -> char {
    if 'a' <= c <= 'z' {
        ((c as u32) - 32) as char
    } else {
        c
    }
}

/// `char::to_ascii_uppercase`.
pub fn to_ascii_upper(c: char) -> (r: char)
    ensures
        r == ascii_upper(c),
{
    if 'a' <= c && c <= 'z' {
        let b: u8 = (c as u32 - 32) as u8;
        b as char
    } else {
        c
    }
}

// ---------------------------------------------------------------------------
// Character classes
// ---------------------------------------------------------------------------

/// The characters with the Unicode `White_Space` property, which is what
/// `char::is_whitespace` tests for.
pub open spec fn is_ws(c: char) -> bool {
    let u = c as u32;
    ||| u == 0x09 || u == 0x0A || u == 0x0B || u == 0x0C || u == 0x0D || u == 0x20
    ||| u == 0x85 || u == 0xA0 || u == 0x1680
    ||| 0x2000 <= u <= 0x200A
    ||| u == 0x2028 || u == 0x2029 || u == 0x202F || u == 0x205F || u == 0x3000
}

/// ASCII `'0'..='9'`.
pub open spec fn is_ascii_digit(c: char) -> bool {
    '0' <= c <= '9'
}

/// A character that may continue the suffix of a DOI found in running text:
/// anything but white space, quotes, angle brackets, commas and closing brackets.
pub open spec fn is_doi_suffix_char(c: char) -> bool {
    !is_ws(c) && c != '"' && c != '\'' && c != '<' && c != '>' && c != ',' && c != ')'
        && c != ']' && c != '}'
}

/// Punctuation that is dropped from the end of a DOI found in running text.
pub open spec fn is_doi_trailer(c: char) -> bool {
    c == '.' || c == ';' || c == ':'
}

/// The classes of characters that are skipped at the start or end of text.
#[derive(Clone, Copy, PartialEq, Eq, Structural, Debug)]
pub enum CharClass {
    Whitespace,
    AsciiDigit,
    DoiSuffix,
    DoiTrailer,
    Dot,
    Zero,
    NotDash,
    NotOpenParen,
}

/// Membership in a character class.
pub open spec fn in_class(k: CharClass, c: char) -> bool {
    match k {
        CharClass::Whitespace => is_ws(c),
        CharClass::AsciiDigit => is_ascii_digit(c),
        CharClass::DoiSuffix => is_doi_suffix_char(c),
        CharClass::DoiTrailer => is_doi_trailer(c),
        CharClass::Dot => c == '.',
        CharClass::Zero => c == '0',
        CharClass::NotDash => c != '-',
        CharClass::NotOpenParen => c != '(',
    }
}

/// `char::is_whitespace`, written out over the `White_Space` list.
pub fn char_is_ws(c: char) -> (r: bool)
    ensures
        r == is_ws(c),
{
    let u = c as u32;
    u == 0x09 || u == 0x0A || u == 0x0B || u == 0x0C || u == 0x0D || u == 0x20 || u == 0x85
        || u == 0xA0 || u == 0x1680 || (0x2000 <= u && u <= 0x200A) || u == 0x2028 || u
        == 0x2029 || u == 0x202F || u == 0x205F || u == 0x3000
}

/// Membership in a character class, computed.
pub fn class_contains(k: CharClass, c: char) -> (r: bool)
    ensures
        r == in_class(k, c),
{
    match k {
        CharClass::Whitespace => char_is_ws(c),
        CharClass::AsciiDigit => '0' <= c && c <= '9',
        CharClass::DoiSuffix => !char_is_ws(c) && c != '"' && c != '\'' && c != '<' && c != '>'
            && c != ',' && c != ')' && c != ']' && c != '}',
        CharClass::DoiTrailer => c == '.' || c == ';' || c == ':',
        CharClass::Dot => c == '.',
        CharClass::Zero => c == '0',
        CharClass::NotDash => c != '-',
        CharClass::NotOpenParen => c != '(',
    }
}

// ---------------------------------------------------------------------------
// Leading and trailing runs
// ---------------------------------------------------------------------------

/// The length of the longest prefix of `s` made of characters of class `k`.
pub open spec fn lead(s: Seq<char>, k: CharClass) -> nat
    decreases s.len(),
{
    if s.len() > 0 && in_class(k, s[0]) {
        1 + lead(s.drop_first(), k)
    } else {
        0
    }
}

/// The length of the longest suffix of `s` made of characters of class `k`.
pub open spec fn trail(s: Seq<char>, k: CharClass) -> nat
    decreases s.len(),
{
    if s.len() > 0 && in_class(k, s.last()) {
        1 + trail(s.drop_last(), k)
    } else {
        0
    }
}

/// `s` without its leading characters of class `k` (`trim_start_matches`).
pub open spec fn drop_lead(s: Seq<char>, k: CharClass) -> Seq<char> {
    s.skip(lead(s, k) as int)
}

/// `s` without its trailing characters of class `k` (`trim_end_matches`).
pub open spec fn drop_trail(s: Seq<char>, k: CharClass) -> Seq<char> {
    s.take(s.len() - trail(s, k))
}

/// The leading characters of class `k` (`chars().take_while(..)`).
pub open spec fn take_lead(s: Seq<char>, k: CharClass) -> Seq<char> {
    s.take(lead(s, k) as int)
}

/// `str::trim`: white space removed at both ends.
pub open spec fn trim(s: Seq<char>) -> Seq<char> {
    drop_trail(drop_lead(s, CharClass::Whitespace), CharClass::Whitespace)
}

pub proof fn lemma_lead_bound(s: Seq<char>, k: CharClass)
    ensures
        lead(s, k) <= s.len(),
    decreases s.len(),
{
    if s.len() > 0 && in_class(k, s[0]) {
        lemma_lead_bound(s.drop_first(), k);
    }
}

pub proof fn lemma_trail_bound(s: Seq<char>, k: CharClass)
    ensures
        trail(s, k) <= s.len(),
    decreases s.len(),
{
    if s.len() > 0 && in_class(k, s.last()) {
        lemma_trail_bound(s.drop_last(), k);
    }
}

/// `lead` is the position of the first character outside the class.
pub proof fn lemma_lead_is(s: Seq<char>, k: CharClass, i: int)
    requires
        0 <= i <= s.len(),
        forall|j: int| 0 <= j < i ==> in_class(k, #[trigger] s[j]),
        i == s.len() || !in_class(k, s[i]),
    ensures
        lead(s, k) == i,
    decreases i,
{
    if i > 0 {
        assert(in_class(k, s[0]));
        let t = s.drop_first();
        assert forall|j: int| 0 <= j < i - 1 implies in_class(k, #[trigger] t[j]) by {
            assert(t[j] == s[j + 1]);
        }
        if i - 1 < t.len() {
            assert(t[i - 1] == s[i]);
        }
        lemma_lead_is(t, k, i - 1);
    }
}

/// `trail` counts back to the last character outside the class.
pub proof fn lemma_trail_is(s: Seq<char>, k: CharClass, i: int)
    requires
        0 <= i <= s.len(),
        forall|j: int| i <= j < s.len() ==> in_class(k, #[trigger] s[j]),
        i == 0 || !in_class(k, s[i - 1]),
    ensures
        trail(s, k) == s.len() - i,
    decreases s.len() - i,
{
    if i < s.len() {
        assert(in_class(k, s[s.len() - 1]));
        let t = s.drop_last();
        assert forall|j: int| i <= j < t.len() implies in_class(k, #[trigger] t[j]) by {
            assert(t[j] == s[j]);
        }
        if i > 0 {
            assert(t[i - 1] == s[i - 1]);
        }
        lemma_trail_is(t, k, i);
    }
}

/// The length of the run of class-`k` characters of `cs` starting at `a`, within `[a, b)`.
pub fn lead_in(cs: &Vec<char>, a: usize, b: usize, k: CharClass) -> (r: usize)
    requires
        a <= b <= cs@.len(),
    ensures
        r == lead(cs@.subrange(a as int, b as int), k),
        a + r <= b,
{
    let ghost s = cs@.subrange(a as int, b as int);
    let mut i = a;
    while i < b && class_contains(k, cs[i])
        invariant
            a <= i <= b <= cs@.len(),
            s == cs@.subrange(a as int, b as int),
            forall|j: int| 0 <= j < i - a ==> in_class(k, #[trigger] s[j]),
        decreases b - i,
    {
        assert(s[i - a] == cs@[i as int]);
        i = i + 1;
    }
    proof {
        if i < b {
            assert(s[i - a] == cs@[i as int]);
        }
        lemma_lead_is(s, k, i - a);
    }
    i - a
}

/// The length of the run of class-`k` characters of `cs` ending at `b`, within `[a, b)`.
pub fn trail_in(cs: &Vec<char>, a: usize, b: usize, k: CharClass) -> (r: usize)
    requires
        a <= b <= cs@.len(),
    ensures
        r == trail(cs@.subrange(a as int, b as int), k),
        a + r <= b,
{
    let ghost s = cs@.subrange(a as int, b as int);
    let mut i = b;
    while i > a && class_contains(k, cs[i - 1])
        invariant
            a <= i <= b <= cs@.len(),
            s == cs@.subrange(a as int, b as int),
            forall|j: int| i - a <= j < s.len() ==> in_class(k, #[trigger] s[j]),
        decreases i - a,
    {
        assert(s[i - 1 - a] == cs@[i - 1]);
        i = i - 1;
    }
    proof {
        if i > a {
            assert(s[i - 1 - a] == cs@[i - 1]);
        }
        lemma_trail_is(s, k, i - a);
    }
    b - i
}

// ---------------------------------------------------------------------------
// Building strings
// ---------------------------------------------------------------------------

/// The characters `cs[a..b]` as a `String`.
pub fn string_of_range(cs: &Vec<char>, a: usize, b: usize) -> (r: String)
    requires
        a <= b <= cs@.len(),
    ensures
        r@ == cs@.subrange(a as int, b as int),
{
    let mut r = String::new();
    let mut i = a;
    while i < b
        invariant
            a <= i <= b <= cs@.len(),
            r@ == cs@.subrange(a as int, i as int),
        decreases b - i,
    {
        push_char(&mut r, cs[i]);
        assert(cs@.subrange(a as int, i + 1) == cs@.subrange(a as int, i as int).push(cs@[i as int]));
        i = i + 1;
    }
    r
}

/// A copy of `s`.
pub fn copy_str(s: &str) -> (r: String)
    ensures
        r@ == s@,
{
    let mut r = String::new();
    r.append(s);
    assert(r@ =~= s@);
    r
}

/// `a` followed by `b`.
pub fn cat(a: &str, b: &str) -> (r: String)
    ensures
        r@ == a@ + b@,
{
    let mut r = String::new();
    r.append(a);
    r.append(b);
    assert(r@ =~= a@ + b@);
    r
}

/// `a`, `b` and `c` in a row.
pub fn cat3(a: &str, b: &str, c: &str) -> (r: String)
    ensures
        r@ == a@ + b@ + c@,
{
    let mut r = String::new();
    r.append(a);
    r.append(b);
    r.append(c);
    assert(r@ =~= a@ + b@ + c@);
    r
}

/// `a` to `d` in a row.
pub fn cat4(a: &str, b: &str, c: &str, d: &str) -> (r: String)
    ensures
        r@ == a@ + b@ + c@ + d@,
{
    let mut r = cat3(a, b, c);
    r.append(d);
    r
}

/// `a` to `e` in a row.
pub fn cat5(a: &str, b: &str, c: &str, d: &str, e: &str) -> (r: String)
    ensures
        r@ == a@ + b@ + c@ + d@ + e@,
{
    let mut r = cat4(a, b, c, d);
    r.append(e);
    r
}

/// The parts, with `sep` between neighbours (`[String]::join`).
pub open spec fn seq_join(parts: Seq<Seq<char>>, sep: Seq<char>) -> Seq<char>
    decreases parts.len(),
{
    if parts.len() == 0 {
        seq![]
    } else if parts.len() == 1 {
        parts[0]
    } else {
        seq_join(parts.drop_last(), sep) + sep + parts.last()
    }
}

/// The views of a list of strings.
pub open spec fn views(v: Seq<String>) -> Seq<Seq<char>> {
    v.map_values(|x: String| x@)
}

/// Joins the first `k` strings with `sep` between neighbours.
pub fn join_first(parts: &[String], k: usize, sep: &str) -> (r: String)
    requires
        k <= parts@.len(),
    ensures
        r@ == seq_join(views(parts@.take(k as int)), sep@),
{
    let mut r = String::new();
    let ghost ps = views(parts@.take(k as int));
    let mut i: usize = 0;
    while i < k
        invariant
            k <= parts@.len(),
            ps == views(parts@.take(k as int)),
            i <= k,
            r@ == seq_join(ps.take(i as int), sep@),
        decreases k - i,
    {
        assert(ps.take(i + 1).drop_last() =~= ps.take(i as int));
        assert(ps.take(i + 1).last() == parts@[i as int]@);
        if i != 0 {
            r.append(sep);
        } else {
            assert(ps.take(1).len() == 1);
        }
        r.append(parts[i].as_str());
        i = i + 1;
    }
    assert(ps.take(k as int) =~= ps);
    r
}

/// Joins the strings with `sep` between neighbours (`[String]::join`).
pub fn join(parts: &[String], sep: &str) -> (r: String)
    ensures
        r@ == seq_join(views(parts@), sep@),
{
    let r = join_first(parts, parts.len(), sep);
    assert(parts@.take(parts@.len() as int) =~= parts@);
    r
}

// ---------------------------------------------------------------------------
// Replacing characters
// ---------------------------------------------------------------------------

/// Every `c` in `s` replaced by `rep` (`str::replace` with a `char` pattern).
pub open spec fn replace_char(s: Seq<char>, c: char, rep: Seq<char>) -> Seq<char>
    decreases s.len(),
{
    if s.len() == 0 {
        seq![]
    } else {
        replace_char(s.drop_last(), c, rep) + if s.last() == c {
            rep
        } else {
            seq![s.last()]
        }
    }
}

/// Replaces every `c` in `s` by `rep`.
pub fn replace_char_str(s: &str, c: char, rep: &str) -> (r: String)
    ensures
        r@ == replace_char(s@, c, rep@),
{
    let cs = chars_of(s);
    let mut r = String::new();
    let mut i: usize = 0;
    while i < cs.len()
        invariant
            cs@ == s@,
            i <= cs@.len(),
            r@ == replace_char(cs@.take(i as int), c, rep@),
        decreases cs@.len() - i,
    {
        assert(cs@.take(i + 1).drop_last() =~= cs@.take(i as int));
        if cs[i] == c {
            r.append(rep);
        } else {
            push_char(&mut r, cs[i]);
            assert(r@ =~= replace_char(cs@.take(i as int), c, rep@) + seq![cs@[i as int]]);
        }
        i = i + 1;
    }
    assert(cs@.take(cs@.len() as int) =~= cs@);
    r
}

// ---------------------------------------------------------------------------
// Trimming
// ---------------------------------------------------------------------------

/// `str::trim`.
pub fn trim_str(s: &str) -> (r: String)
    ensures
        r@ == trim(s@),
{
    let cs = chars_of(s);
    let n = cs.len();
    let a = lead_in(&cs, 0, n, CharClass::Whitespace);
    let t = trail_in(&cs, a, n, CharClass::Whitespace);
    proof {
        assert(cs@.subrange(0, n as int) =~= cs@);
        assert(drop_lead(s@, CharClass::Whitespace) =~= cs@.subrange(a as int, n as int));
    }
    let r = string_of_range(&cs, a, n - t);
    assert(r@ =~= trim(s@));
    r
}

/// `s` without a run of leading class-`k` characters.
pub fn drop_lead_str(s: &str, k: CharClass) -> (r: String)
    ensures
        r@ == drop_lead(s@, k),
{
    let cs = chars_of(s);
    let n = cs.len();
    let a = lead_in(&cs, 0, n, k);
    assert(cs@.subrange(0, n as int) =~= cs@);
    let r = string_of_range(&cs, a, n);
    assert(r@ =~= drop_lead(s@, k));
    r
}

/// `s` without a run of trailing class-`k` characters.
pub fn drop_trail_str(s: &str, k: CharClass) -> (r: String)
    ensures
        r@ == drop_trail(s@, k),
{
    let cs = chars_of(s);
    let n = cs.len();
    let t = trail_in(&cs, 0, n, k);
    assert(cs@.subrange(0, n as int) =~= cs@);
    let r = string_of_range(&cs, 0, n - t);
    assert(r@ =~= drop_trail(s@, k));
    r
}

// ---------------------------------------------------------------------------
// Prefixes
// ---------------------------------------------------------------------------

/// `s` with every leading repetition of `p` removed (`str::trim_start_matches`
/// with a string pattern; an empty pattern removes nothing).
pub open spec fn strip_all(s: Seq<char>, p: Seq<char>) -> Seq<char>
    decreases s.len(),
{
    if p.len() > 0 && p.is_prefix_of(s) {
        strip_all(s.skip(p.len() as int), p)
    } else {
        s
    }
}

/// Whether `p` occurs in `cs` at position `i`.
pub fn occurs_at(cs: &Vec<char>, i: usize, p: &Vec<char>) -> (r: bool)
    ensures
        r == (i + p@.len() <= cs@.len() && cs@.subrange(i as int, i + p@.len()) == p@),
{
    if i > cs.len() || p.len() > cs.len() - i {
        return false;
    }
    let mut j: usize = 0;
    while j < p.len()
        invariant
            i + p@.len() <= cs@.len(),
            cs@.len() <= usize::MAX,
            j <= p@.len(),
            forall|k: int| 0 <= k < j ==> cs@[i + k] == p@[k],
        decreases p@.len() - j,
    {
        if cs[i + j] != p[j] {
            assert(cs@.subrange(i as int, i + p@.len())[j as int] != p@[j as int]);
            return false;
        }
        j = j + 1;
    }
    assert(cs@.subrange(i as int, i + p@.len()) =~= p@);
    true
}

/// Whether `s` starts with `p`.
pub fn starts_with(s: &str, p: &str) -> (r: bool)
    ensures
        r == p@.is_prefix_of(s@),
{
    let cs = chars_of(s);
    let ps = chars_of(p);
    let r = occurs_at(&cs, 0, &ps);
    assert(r == p@.is_prefix_of(s@)) by {
        if p@.len() <= s@.len() {
            assert(p@.is_prefix_of(s@) <==> s@.subrange(0, p@.len() as int) =~= p@);
        }
    }
    r
}

/// The position in `cs` where the text after `start` begins once every leading
/// repetition of `p` is removed from it.
pub fn strip_all_from(cs: &Vec<char>, start: usize, p: &str) -> (r: usize)
    requires
        start <= cs@.len(),
    ensures
        start <= r <= cs@.len(),
        strip_all(cs@.skip(start as int), p@) == cs@.skip(r as int),
{
    let ps = chars_of(p);
    let n = cs.len();
    let m = ps.len();
    let mut i: usize = start;
    if m > 0 {
        while occurs_at(&cs, i, &ps)
            invariant
                ps@ == p@,
                m == p@.len(),
                m > 0,
                n == cs@.len(),
                start <= i <= n,
                strip_all(cs@.skip(start as int), p@) == strip_all(cs@.skip(i as int), p@),
            decreases n - i,
        {
            proof {
                let t = cs@.skip(i as int);
                assert(t.subrange(0, m as int) =~= cs@.subrange(i as int, i + m));
                assert(p@.is_prefix_of(t));
                assert(t.skip(m as int) =~= cs@.skip(i + m));
            }
            i = i + m;
        }
        proof {
            let t = cs@.skip(i as int);
            if p@.is_prefix_of(t) {
                assert(t.subrange(0, m as int) =~= cs@.subrange(i as int, i + m));
            }
        }
    }
    i
}

/// Removes every leading repetition of `p` from `s`.
pub fn strip_all_str(s: &str, p: &str) -> (r: String)
    ensures
        r@ == strip_all(s@, p@),
{
    let cs = chars_of(s);
    let i = strip_all_from(&cs, 0, p);
    assert(cs@.skip(0) =~= cs@);
    let r = string_of_range(&cs, i, cs.len());
    assert(r@ =~= cs@.skip(i as int));
    r
}

// ---------------------------------------------------------------------------
// Byte positions
// ---------------------------------------------------------------------------

/// The length of `s` in UTF-8 bytes (`str::len`).
pub open spec fn utf8_len(s: Seq<char>) -> nat {
    encode_utf8(s).len()
}

/// Whether byte offset `k` of `s` starts a character or is the end of `s`
/// (`str::is_char_boundary`): slicing `s` at `k` does not panic.
pub open spec fn byte_prefix_ok(s: Seq<char>, k: int) -> bool {
    is_char_boundary(encode_utf8(s), k)
}

/// The characters in the first `k` bytes of `s` (`&s[..k]`).
pub open spec fn byte_prefix(s: Seq<char>, k: int) -> Seq<char> {
    decode_utf8(encode_utf8(s).take(k))
}

/// `str::len`: the length in bytes.
pub fn byte_len(s: &str) -> (r: usize)
    ensures
        r == utf8_len(s@),
{
    s.as_bytes().len()
}

/// `str::is_char_boundary`.
pub fn is_byte_boundary(s: &str, k: usize) -> (r: bool)
    ensures
        r == byte_prefix_ok(s@, k as int),
{
    s.is_char_boundary(k)
}

/// `&s[..k]`, copied.
pub fn byte_prefix_str(s: &str, k: usize) -> (r: String)
    requires
        byte_prefix_ok(s@, k as int),
    ensures
        r@ == byte_prefix(s@, k as int),
{
    let (a, _b) = s.split_at(k);
    proof {
        vstd::utf8::encode_utf8_decode_utf8(a@);
        assert(encode_utf8(a@) == encode_utf8(s@).subrange(0, k as int));
        assert(a@ == decode_utf8(encode_utf8(s@).take(k as int)));
    }
    copy_str(a)
}

/// The first position `p >= i` at which `needle` occurs in `h` (`str::find`
/// on the text after byte `i`, counted from the start).
pub open spec fn find_from(h: Seq<u8>, needle: Seq<u8>, i: int) -> Option<int>
    decreases h.len() + 1 - i,
{
    if i < 0 || i + needle.len() > h.len() {
        None
    } else if h.subrange(i, i + needle.len()) == needle {
        Some(i)
    } else {
        find_from(h, needle, i + 1)
    }
}

/// The last position before `i` that holds byte `b` (`str::rfind` on the text before byte `i`).
pub open spec fn rfind_before(h: Seq<u8>, b: u8, i: int) -> Option<int>
    decreases i,
{
    if i <= 0 {
        None
    } else if h[i - 1] == b {
        Some(i - 1)
    } else {
        rfind_before(h, b, i - 1)
    }
}

pub proof fn lemma_find_from_bounds(h: Seq<u8>, needle: Seq<u8>, i: int)
    ensures
        find_from(h, needle, i) matches Some(p) ==> i <= p && p + needle.len() <= h.len()
            && h.subrange(p, p + needle.len()) == needle,
    decreases h.len() + 1 - i,
{
    if !(i < 0 || i + needle.len() > h.len()) && h.subrange(i, i + needle.len()) != needle {
        lemma_find_from_bounds(h, needle, i + 1);
    }
}

pub proof fn lemma_rfind_before_bounds(h: Seq<u8>, b: u8, i: int)
    ensures
        rfind_before(h, b, i) matches Some(p) ==> 0 <= p < i && h[p] == b,
    decreases i,
{
    if i > 0 && h[i - 1] != b {
        lemma_rfind_before_bounds(h, b, i - 1);
    }
}

/// Whether `needle` occurs in `h` at position `i`.
fn bytes_at(h: &[u8], i: usize, needle: &[u8]) -> (r: bool)
    requires
        i + needle@.len() <= h@.len(),
    ensures
        r == (h@.subrange(i as int, i + needle@.len()) == needle@),
{
    let hn = h.len();
    let mut j: usize = 0;
    while j < needle.len()
        invariant
            i + needle@.len() <= h@.len(),
            hn == h@.len(),
            j <= needle@.len(),
            forall|k: int| 0 <= k < j ==> h@[i + k] == needle@[k],
        decreases needle@.len() - j,
    {
        if h[i + j] != needle[j] {
            assert(h@.subrange(i as int, i + needle@.len())[j as int] != needle@[j as int]);
            return false;
        }
        j = j + 1;
    }
    assert(h@.subrange(i as int, i + needle@.len()) =~= needle@);
    true
}

/// The first position at or after `i` where `needle` occurs in `h`.
pub fn find_bytes_from(h: &[u8], needle: &[u8], i: usize) -> (r: Option<usize>)
    ensures
        r matches Some(p) ==> find_from(h@, needle@, i as int) == Some(p as int),
        r is None <==> find_from(h@, needle@, i as int) is None,
{
    let n = h.len();
    let m = needle.len();
    if m > n {
        return None;
    }
    if m == 0 {
        if i <= n {
            assert(h@.subrange(i as int, i as int) =~= needle@);
            return Some(i);
        } else {
            return None;
        }
    }
    let mut k = i;
    while k <= n - m
        invariant
            n == h@.len(),
            m == needle@.len(),
            0 < m <= n,
            i <= k,
            find_from(h@, needle@, i as int) == find_from(h@, needle@, k as int),
        decreases n - k,
    {
        if bytes_at(h, k, needle) {
            return Some(k);
        }
        k = k + 1;
    }
    None
}

/// The last position before `i` that holds byte `b`.
pub fn rfind_byte_before(h: &[u8], b: u8, i: usize) -> (r: Option<usize>)
    requires
        i <= h@.len(),
    ensures
        r matches Some(p) ==> rfind_before(h@, b, i as int) == Some(p as int),
        r is None <==> rfind_before(h@, b, i as int) is None,
{
    let mut k = i;
    while k > 0
        invariant
            k <= i <= h@.len(),
            rfind_before(h@, b, i as int) == rfind_before(h@, b, k as int),
        decreases k,
    {
        if h[k - 1] == b {
            return Some(k - 1);
        }
        k = k - 1;
    }
    None
}

/// In UTF-8, an ASCII byte is a whole character: there are character
/// boundaries before and after it.
pub proof fn lemma_ascii_byte_boundaries(h: Seq<u8>, i: int)
    requires
        vstd::utf8::valid_utf8(h),
        0 <= i < h.len(),
        h[i] < 0x80,
    ensures
        is_char_boundary(h, i),
        is_char_boundary(h, i + 1),
{
    broadcast use vstd::utf8::group_utf8_lib;

    vstd::utf8::is_char_boundary_iff_not_is_continuation_byte(h, i);
    let t = h.subrange(i, h.len() as int);
    vstd::utf8::valid_utf8_split(h, i);
    assert(t[0] == h[i]);
    assert(vstd::utf8::length_of_first_scalar(t) == 1);
    let rest = vstd::utf8::pop_first_scalar(t);
    assert(rest =~= h.subrange(i + 1, h.len() as int));
    assert(vstd::utf8::valid_utf8(t));
    assert(vstd::utf8::valid_utf8(rest));
    if i + 1 < h.len() {
        assert(vstd::utf8::valid_first_scalar(rest));
        assert(rest[0] == h[i + 1]);
        vstd::utf8::is_char_boundary_iff_not_is_continuation_byte(h, i + 1);
    } else {
        vstd::utf8::is_char_boundary_start_end_of_seq(h);
    }
}

/// A character boundary of a text is one of each of its prefixes that reach past it.
pub proof fn lemma_boundary_in_prefix(h: Seq<u8>, i: int, k: int)
    requires
        vstd::utf8::valid_utf8(h),
        0 <= i <= k <= h.len(),
        is_char_boundary(h, i),
        is_char_boundary(h, k),
    ensures
        vstd::utf8::valid_utf8(h.subrange(0, k)),
        is_char_boundary(h.subrange(0, k), i),
{
    broadcast use vstd::utf8::group_utf8_lib;

    vstd::utf8::valid_utf8_split(h, k);
    let p = h.subrange(0, k);
    if i == k {
        vstd::utf8::is_char_boundary_start_end_of_seq(p);
    } else if i == 0 {
        vstd::utf8::is_char_boundary_start_end_of_seq(p);
    } else {
        vstd::utf8::is_char_boundary_iff_not_is_continuation_byte(h, i);
        assert(p[i] == h[i]);
        vstd::utf8::is_char_boundary_iff_not_is_continuation_byte(p, i);
    }
}

/// The characters of a piece of text are those its bytes decode to.
pub proof fn lemma_decode_bytes(s: Seq<char>, b: Seq<u8>)
    requires
        encode_utf8(s) == b,
    ensures
        s == decode_utf8(b),
{
    vstd::utf8::encode_utf8_decode_utf8(s);
}

/// What `str::to_lowercase` returns: the Unicode lower-case mapping of `s`.
pub uninterp spec fn str_lowercase(s: Seq<char>) -> Seq<char>;

/// std's `str::to_lowercase`. Trusted: the result is `str_lowercase(s@)`, a name
/// for std's Unicode lower-case mapping of the whole text.
#[verifier::external_body]
pub fn to_lowercase(s: &str) -> (r: String)
    ensures
        r@ == str_lowercase(s@),
{
    s.to_lowercase()
}

/// The pieces of `s` between the occurrences of `c` (`str::split` with a
/// `char`): one more piece than there are separators, empty pieces included.
pub open spec fn split_on(s: Seq<char>, c: char) -> Seq<Seq<char>>
    decreases s.len(),
{
    if s.len() == 0 {
        seq![seq![]]
    } else {
        let parts = split_on(s.drop_last(), c);
        if s.last() == c {
            parts.push(seq![])
        } else {
            parts.update(parts.len() - 1, parts.last().push(s.last()))
        }
    }
}

pub proof fn lemma_split_on_len(s: Seq<char>, c: char)
    ensures
        split_on(s, c).len() >= 1,
    decreases s.len(),
{
    if s.len() > 0 {
        lemma_split_on_len(s.drop_last(), c);
    }
}

/// Splits `s` at every `c`.
pub fn split_str(s: &str, c: char) -> (r: Vec<String>)
    ensures
        views(r@) == split_on(s@, c),
{
    let cs = chars_of(s);
    let mut parts: Vec<String> = Vec::new();
    let mut cur = String::new();
    let mut i: usize = 0;
    assert(cs@.take(0) =~= Seq::<char>::empty());
    assert(views(parts@).push(cur@) =~= split_on(cs@.take(0), c));
    while i < cs.len()
        invariant
            cs@ == s@,
            i <= cs@.len(),
            views(parts@).push(cur@) == split_on(cs@.take(i as int), c),
        decreases cs@.len() - i,
    {
        let ghost t = cs@.take(i + 1);
        assert(t.drop_last() =~= cs@.take(i as int));
        assert(t.last() == cs@[i as int]);
        if cs[i] == c {
            let done = cur;
            parts.push(done);
            cur = String::new();
            assert(views(parts@).push(cur@) =~= split_on(t, c));
        } else {
            let ghost before = views(parts@);
            push_char(&mut cur, cs[i]);
            assert(views(parts@).push(cur@) =~= split_on(t, c));
        }
        i = i + 1;
    }
    assert(cs@.take(cs@.len() as int) =~= cs@);
    parts.push(cur);
    assert(views(parts@) =~= split_on(s@, c));
    parts
}

// ---------------------------------------------------------------------------
// Facts about trimming, splitting and joining
// ---------------------------------------------------------------------------

/// The run counted by `trail` is made of class-`k` characters, and the
/// character before it (if any) is outside the class.
pub proof fn lemma_trail_props(s: Seq<char>, k: CharClass)
    ensures
        trail(s, k) <= s.len(),
        forall|j: int| s.len() - trail(s, k) <= j < s.len() ==> in_class(k, #[trigger] s[j]),
        trail(s, k) < s.len() ==> !in_class(k, s[s.len() - trail(s, k) - 1]),
    decreases s.len(),
{
    if s.len() > 0 && in_class(k, s.last()) {
        let t = s.drop_last();
        lemma_trail_props(t, k);
        assert forall|j: int| s.len() - trail(s, k) <= j < s.len() implies in_class(k, #[trigger] s[j]) by {
            if j < s.len() - 1 {
                assert(s[j] == t[j]);
            }
        }
        if trail(s, k) < s.len() {
            assert(s[s.len() - trail(s, k) - 1] == t[t.len() - trail(t, k) - 1]);
        }
    }
}

/// Trimming twice is trimming once.
pub proof fn lemma_trim_idempotent(s: Seq<char>)
    ensures
        trim(trim(s)) == trim(s),
{
    let k = CharClass::Whitespace;
    lemma_lead_bound(s, k);
    let u = drop_lead(s, k);
    let t = trim(s);
    if u.len() == 0 {
        assert(t =~= Seq::<char>::empty());
        lemma_lead_is(t, k, 0);
        lemma_trail_is(t, k, 0);
        assert(trim(t) =~= t);
    } else {
        if in_class(k, u[0]) {
            assert(u[0] == s[lead(s, k) as int]);
            assert(lead(s, k) < s.len());
            lemma_lead_not_stopped(s, k);
        }
        assert(!in_class(k, u[0]));
        lemma_trail_props(u, k);
        assert(trail(u, k) < u.len());
        assert(t.len() > 0);
        assert(t[0] == u[0]);
        assert(t[t.len() - 1] == u[u.len() - trail(u, k) - 1]);
        lemma_lead_is(t, k, 0);
        lemma_trail_is(t, k, t.len() as int);
        assert(drop_lead(t, k) =~= t);
        assert(trim(t) =~= t);
    }
}

/// The character at `lead` (if any) is outside the class.
pub proof fn lemma_lead_not_stopped(s: Seq<char>, k: CharClass)
    ensures
        lead(s, k) < s.len() ==> !in_class(k, s[lead(s, k) as int]),
    decreases s.len(),
{
    if s.len() > 0 && in_class(k, s[0]) {
        let t = s.drop_first();
        lemma_lead_not_stopped(t, k);
        if lead(s, k) < s.len() {
            assert(s[lead(s, k) as int] == t[lead(t, k) as int]);
        }
    }
}

/// Trimming keeps only characters that were there.
pub proof fn lemma_trim_keeps_chars(s: Seq<char>, c: char)
    requires
        !s.contains(c),
    ensures
        !trim(s).contains(c),
{
    let k = CharClass::Whitespace;
    lemma_lead_bound(s, k);
    let u = drop_lead(s, k);
    lemma_trail_bound(u, k);
    let t = trim(s);
    if t.contains(c) {
        let i = choose|i: int| 0 <= i < t.len() && t[i] == c;
        assert(t[i] == s[i + lead(s, k)]);
        assert(false);
    }
}

/// No piece of `split_on(s, c)` holds `c`.
pub proof fn lemma_split_pieces(s: Seq<char>, c: char)
    ensures
        forall|i: int| 0 <= i < split_on(s, c).len() ==> !(#[trigger] split_on(s, c)[i]).contains(c),
    decreases s.len(),
{
    if s.len() > 0 {
        let p = split_on(s.drop_last(), c);
        lemma_split_pieces(s.drop_last(), c);
        lemma_split_on_len(s.drop_last(), c);
        if s.last() != c {
            let q = p.last().push(s.last());
            assert(!p[p.len() - 1].contains(c));
            if q.contains(c) {
                let j = choose|j: int| 0 <= j < q.len() && q[j] == c;
                if j < q.len() - 1 {
                    assert(p.last()[j] == c);
                }
                assert(false);
            }
        } else {
            assert forall|i: int| 0 <= i < split_on(s, c).len() implies !(#[trigger] split_on(s, c)[i]).contains(c) by {
                if i < p.len() {
                    assert(split_on(s, c)[i] == p[i]);
                } else {
                    assert(split_on(s, c)[i] =~= Seq::<char>::empty());
                }
            }
        }
    }
}

/// Text without `c` appended after `x` only lengthens the last piece.
pub proof fn lemma_split_append_plain(x: Seq<char>, b: Seq<char>, c: char)
    requires
        !b.contains(c),
    ensures
        split_on(x + b, c) == split_on(x, c).update(split_on(x, c).len() - 1, split_on(x, c).last() + b),
    decreases b.len(),
{
    lemma_split_on_len(x, c);
    let p = split_on(x, c);
    if b.len() == 0 {
        assert(x + b =~= x);
        assert(p.last() + b =~= p.last());
        assert(p.update(p.len() - 1, p.last() + b) =~= p);
    } else {
        let b0 = b.drop_last();
        assert(!b0.contains(c)) by {
            if b0.contains(c) {
                let j = choose|j: int| 0 <= j < b0.len() && b0[j] == c;
                assert(b[j] == c);
            }
        }
        lemma_split_append_plain(x, b0, c);
        assert((x + b).drop_last() =~= x + b0);
        assert((x + b).last() == b.last());
        assert(b.last() != c) by {
            assert(b[b.len() - 1] == b.last());
        }
        let q = split_on(x + b0, c);
        assert(q.last() == p.last() + b0);
        assert((p.last() + b0).push(b.last()) =~= p.last() + b);
        assert(q.update(q.len() - 1, q.last().push(b.last())) =~= p.update(p.len() - 1, p.last() + b));
    }
}

/// Splitting at `c` undoes joining with `c`, when no part holds `c`.
pub proof fn lemma_split_join(parts: Seq<Seq<char>>, c: char)
    requires
        parts.len() >= 1,
        forall|i: int| 0 <= i < parts.len() ==> !(#[trigger] parts[i]).contains(c),
    ensures
        split_on(seq_join(parts, seq![c]), c) == parts,
    decreases parts.len(),
{
    if parts.len() == 1 {
        assert(!parts[0].contains(c));
        lemma_split_append_plain(seq![], parts[0], c);
        assert(Seq::<char>::empty() + parts[0] =~= parts[0]);
        assert(split_on(Seq::<char>::empty(), c) =~= seq![Seq::<char>::empty()]);
        assert(split_on(parts[0], c) =~= parts);
    } else {
        let d = parts.drop_last();
        assert forall|i: int| 0 <= i < d.len() implies !(#[trigger] d[i]).contains(c) by {
            assert(d[i] == parts[i]);
        }
        lemma_split_join(d, c);
        let x = seq_join(d, seq![c]) + seq![c];
        assert(x.drop_last() =~= seq_join(d, seq![c]));
        assert(x.last() == c);
        assert(split_on(x, c) == d.push(seq![]));
        assert(!parts.last().contains(c)) by {
            assert(parts.last() == parts[parts.len() - 1]);
        }
        lemma_split_append_plain(x, parts.last(), c);
        assert(seq_join(parts, seq![c]) =~= x + parts.last());
        assert(Seq::<char>::empty() + parts.last() =~= parts.last());
        assert(d.push(seq![]).update(d.len() as int, Seq::<char>::empty() + parts.last()) =~= parts);
    }
}

/// Replacing in a concatenation replaces in each part.
pub proof fn lemma_replace_concat(a: Seq<char>, b: Seq<char>, c: char, rep: Seq<char>)
    ensures
        replace_char(a + b, c, rep) == replace_char(a, c, rep) + replace_char(b, c, rep),
    decreases b.len(),
{
    if b.len() == 0 {
        assert(a + b =~= a);
        assert(replace_char(a, c, rep) + replace_char(b, c, rep) =~= replace_char(a, c, rep));
    } else {
        let b0 = b.drop_last();
        lemma_replace_concat(a, b0, c, rep);
        assert((a + b).drop_last() =~= a + b0);
        assert((a + b).last() == b.last());
        let tail = if b.last() == c {
            rep
        } else {
            seq![b.last()]
        };
        assert(replace_char(a + b, c, rep) == replace_char(a + b0, c, rep) + tail);
        assert(replace_char(b, c, rep) == replace_char(b0, c, rep) + tail);
        assert(replace_char(a, c, rep) + replace_char(b0, c, rep) + tail =~= replace_char(a, c, rep)
            + (replace_char(b0, c, rep) + tail));
    }
}

/// Replacing, read from the front: the first character's replacement, then the rest.
pub proof fn lemma_replace_front(s: Seq<char>, c: char, rep: Seq<char>)
    requires
        s.len() > 0,
    ensures
        replace_char(s, c, rep) == (if s[0] == c {
            rep
        } else {
            seq![s[0]]
        }) + replace_char(s.skip(1), c, rep),
{
    let h = seq![s[0]];
    assert(s =~= h + s.skip(1));
    lemma_replace_concat(h, s.skip(1), c, rep);
    assert(h.drop_last() =~= Seq::<char>::empty());
    assert(h.last() == s[0]);
    assert(replace_char(Seq::<char>::empty(), c, rep) =~= Seq::<char>::empty());
    assert(replace_char(h, c, rep) =~= (if s[0] == c {
        rep
    } else {
        seq![s[0]]
    }));
}

} // verus!
