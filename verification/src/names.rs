//! Checks on the names that reach the file system, and the file-name rules of
//! the recording stores.
use vstd::prelude::*;
use vstd::string::StringSliceAdditionalSpecFns;

use crate::text::{
    ascii_alphanumeric_byte, ascii_lower, chars_equal, control, is_ascii_alphanumeric_byte,
    is_control, is_white_space, lemma_trim_all, lemma_trim_ends, lemma_trim_is_infix,
    lemma_trim_keeps, lemma_trim_twice,
    lower_ascii_char, string_of, to_chars, trim, trim_range, trims, TrimSet,
};
use vstd::utf8::is_ascii_chars;

verus! {

// ---------------------------------------------------------------------------
// Identifiers and path components
// ---------------------------------------------------------------------------

pub open spec fn is_id_byte(b: u8) -> bool {
    is_ascii_alphanumeric_byte(b) || b == 95 || b == 45
}

/// A recording id: 8 to 96 bytes, each an ASCII letter, digit, `_` or `-`.
pub open spec fn is_safe_id(bytes: Seq<u8>) -> bool {
    &&& 8 <= bytes.len() <= 96
    &&& forall|i: int| 0 <= i < bytes.len() ==> is_id_byte(#[trigger] bytes[i])
}

pub fn safe_id(v: &str) -> (r: bool)
    ensures
        r == is_safe_id(v.spec_bytes()),
{
    let b = v.as_bytes();
    let n = b.len();
    if n < 8 || n > 96 {
        return false;
    }
    let mut i: usize = 0;
    while i < n
        invariant
            n == b@.len(),
            b@ == v.spec_bytes(),
            0 <= i <= n,
            forall|k: int| 0 <= k < i ==> is_id_byte(#[trigger] b@[k]),
        decreases n - i,
    {
        let c = b[i];
        if !(ascii_alphanumeric_byte(c) || c == 95u8 || c == 45u8) {
            return false;
        }
        i = i + 1;
    }
    true
}

pub open spec fn is_component_byte(b: u8) -> bool {
    is_ascii_alphanumeric_byte(b) || b == 95 || b == 45 || b == 46
}

pub open spec fn has_double_dot(bytes: Seq<u8>) -> bool {
    exists|i: int| 0 <= i < bytes.len() - 1 && #[trigger] bytes[i] == 46 && bytes[i + 1] == 46
}

/// A single path component: 1 to 128 bytes of ASCII letters, digits, `_`,
/// `-` and `.`, with no `..` anywhere in it.
pub open spec fn is_safe_component(bytes: Seq<u8>) -> bool {
    &&& 0 < bytes.len() <= 128
    &&& forall|i: int| 0 <= i < bytes.len() ==> is_component_byte(#[trigger] bytes[i])
    &&& !has_double_dot(bytes)
}

pub fn safe_component(v: &str) -> (r: bool)
    ensures
        r == is_safe_component(v.spec_bytes()),
{
    let b = v.as_bytes();
    let n = b.len();
    if n == 0 || n > 128 {
        return false;
    }
    let mut i: usize = 0;
    while i < n
        invariant
            n == b@.len(),
            b@ == v.spec_bytes(),
            0 <= i <= n,
            forall|k: int| 0 <= k < i ==> is_component_byte(#[trigger] b@[k]),
            forall|k: int| 0 <= k < i - 1 ==> !(#[trigger] b@[k] == 46 && b@[k + 1] == 46),
        decreases n - i,
    {
        let c = b[i];
        if !(ascii_alphanumeric_byte(c) || c == 95u8 || c == 45u8 || c == 46u8) {
            return false;
        }
        if i > 0 && c == 46u8 && b[i - 1] == 46u8 {
            assert(b@[i - 1] == 46 && b@[(i - 1) + 1] == 46);
            return false;
        }
        i = i + 1;
    }
    true
}

// ---------------------------------------------------------------------------
// Relative paths
// ---------------------------------------------------------------------------

/// How many characters of `s` come before the first `c` (all of them when
/// there is none).
pub open spec fn span_before(s: Seq<char>, c: char) -> nat
    decreases s.len(),
{
    if s.len() == 0 || s[0] == c {
        0
    } else {
        1 + span_before(s.drop_first(), c)
    }
}

/// Every `'/'`-separated segment of `s` is non-empty and neither `.` nor
/// `..`; the segments are those of `s.split('/')`.
pub open spec fn segments_ok(s: Seq<char>) -> bool
    decreases s.len(),
{
    let k = span_before(s, '/');
    let seg = s.take(k as int);
    &&& seg.len() > 0
    &&& seg != seq!['.']
    &&& seg != seq!['.', '.']
    &&& (k >= s.len() || segments_ok(s.skip(k + 1 as int)))
}

proof fn lemma_span_before(s: Seq<char>, c: char, k: int)
    requires
        0 <= k <= s.len(),
        forall|j: int| 0 <= j < k ==> s[j] != c,
        k == s.len() || s[k] == c,
    ensures
        span_before(s, c) == k,
    decreases k,
{
    if k > 0 {
        lemma_span_before(s.drop_first(), c, k - 1);
    }
}

/// A relative path under the web root: not empty, not starting with `/`, and
/// with no empty, `.` or `..` segment.
pub open spec fn is_safe_relative_path(s: Seq<char>) -> bool {
    &&& s.len() > 0
    &&& s[0] != '/'
    &&& segments_ok(s)
}

pub fn safe_relative_path(v: &str) -> (r: bool)
    ensures
        r == is_safe_relative_path(v@),
{
    let c = to_chars(v);
    let n = c.len();
    if n == 0 || c[0] == '/' {
        return false;
    }
    let mut pos: usize = 0;
    assert(c@.skip(0) =~= c@);
    loop
        invariant
            n == c@.len(),
            c@ == v@,
            0 <= pos <= n,
            n > 0,
            c@[0] != '/',
            segments_ok(c@) == segments_ok(c@.skip(pos as int)),
        decreases n - pos,
    {
        let ghost rest = c@.skip(pos as int);
        let mut k: usize = pos;
        while k < n && c[k] != '/'
            invariant
                n == c@.len(),
                rest == c@.skip(pos as int),
                pos <= k <= n,
                forall|j: int| pos <= j < k ==> c@[j] != '/',
            decreases n - k,
        {
            k = k + 1;
        }
        proof {
            lemma_span_before(rest, '/', k - pos);
            assert(rest.take(k - pos) =~= c@.subrange(pos as int, k as int));
            reveal_strlit(".");
            reveal_strlit("..");
            assert("."@ =~= seq!['.']);
            assert(".."@ =~= seq!['.', '.']);
            let seg = rest.take(k - pos);
            assert(segments_ok(rest) == (seg.len() > 0 && seg != seq!['.'] && seg != seq!['.', '.']
                && (k - pos >= rest.len() || segments_ok(rest.skip(k - pos + 1)))));
        }
        let bad = k == pos || chars_equal(&c, pos, k, ".") || chars_equal(&c, pos, k, "..");
        if bad {
            return false;
        }
        if k == n {
            return true;
        }
        assert(rest.skip(k - pos + 1) =~= c@.skip(k + 1));
        pos = k + 1;
    }
}

proof fn lemma_span_props(s: Seq<char>, c: char)
    ensures
        span_before(s, c) <= s.len(),
        forall|j: int| 0 <= j < span_before(s, c) ==> s[j] != c,
        span_before(s, c) < s.len() ==> s[span_before(s, c) as int] == c,
    decreases s.len(),
{
    if s.len() > 0 && s[0] != c {
        lemma_span_props(s.drop_first(), c);
        assert forall|j: int| 0 <= j < span_before(s, c) implies s[j] != c by {
            if j > 0 {
                assert(s[j] == s.drop_first()[j - 1]);
            }
        }
    }
}

/// Position `i` begins a segment of `s`: it is the start, or follows `/`.
pub open spec fn starts_segment(s: Seq<char>, i: int) -> bool {
    i == 0 || s[i - 1] == '/'
}

/// Position `i` ends a segment of `s`: it is the end, or holds `/`.
pub open spec fn ends_segment(s: Seq<char>, i: int) -> bool {
    i == s.len() || s[i] == '/'
}

/// `s` holds `//` at position `i`.
pub open spec fn slash_pair_at(s: Seq<char>, i: int) -> bool {
    0 <= i < s.len() - 1 && s[i] == '/' && s[i + 1] == '/'
}

/// A segment `.` stands at position `i` of `s`.
pub open spec fn dot_segment_at(s: Seq<char>, i: int) -> bool {
    0 <= i < s.len() && starts_segment(s, i) && s[i] == '.' && ends_segment(s, i + 1)
}

/// A segment `..` stands at position `i` of `s`.
pub open spec fn dot_dot_segment_at(s: Seq<char>, i: int) -> bool {
    0 <= i < s.len() - 1 && starts_segment(s, i) && s[i] == '.' && s[i + 1] == '.'
        && ends_segment(s, i + 2)
}

spec fn clean_path(s: Seq<char>) -> bool {
    &&& s.len() > 0
    &&& s[0] != '/'
    &&& s.last() != '/'
    &&& forall|i: int| !#[trigger] slash_pair_at(s, i)
    &&& forall|i: int| !#[trigger] dot_segment_at(s, i)
    &&& forall|i: int| !#[trigger] dot_dot_segment_at(s, i)
}

proof fn lemma_clean_without_slash(s: Seq<char>)
    requires
        forall|j: int| 0 <= j < s.len() ==> s[j] != '/',
    ensures
        clean_path(s) == (s.len() > 0 && s != seq!['.'] && s != seq!['.', '.']),
{
    if s.len() > 0 && s != seq!['.'] && s != seq!['.', '.'] {
        assert forall|i: int| !#[trigger] slash_pair_at(s, i) by {
            if 0 <= i < s.len() {
                assert(s[i] != '/');
            }
        }
        assert forall|i: int| !#[trigger] dot_segment_at(s, i) by {
            if 0 < i < s.len() {
                assert(s[i - 1] != '/');
            }
            if 0 <= i < s.len() - 1 {
                assert(s[i + 1] != '/');
            }
            if i == 0 && s.len() == 1 && s[0] == '.' {
                assert(s =~= seq!['.']);
            }
        }
        assert forall|i: int| !#[trigger] dot_dot_segment_at(s, i) by {
            if 0 < i < s.len() {
                assert(s[i - 1] != '/');
            }
            if 0 <= i < s.len() - 2 {
                assert(s[i + 2] != '/');
            }
            if i == 0 && s.len() == 2 && s[0] == '.' && s[1] == '.' {
                assert(s =~= seq!['.', '.']);
            }
        }
        assert(s.last() == s[s.len() - 1]);
    }
    if s =~= seq!['.'] {
        assert(dot_segment_at(s, 0));
    }
    if s =~= seq!['.', '.'] {
        assert(dot_dot_segment_at(s, 0));
    }
}

proof fn lemma_clean_split_forward(s: Seq<char>, k: int)
    requires
        0 <= k < s.len(),
        s[k] == '/',
        forall|j: int| 0 <= j < k ==> s[j] != '/',
        clean_path(s),
    ensures
        k > 0,
        s.take(k) != seq!['.'],
        s.take(k) != seq!['.', '.'],
        clean_path(s.skip(k + 1)),
{
    let r = s.skip(k + 1);
    if s.take(k) =~= seq!['.'] {
        assert(k == 1 && s[0] == s.take(k)[0]);
        assert(dot_segment_at(s, 0));
    }
    if s.take(k) =~= seq!['.', '.'] {
        assert(k == 2 && s[0] == s.take(k)[0] && s[1] == s.take(k)[1]);
        assert(dot_dot_segment_at(s, 0));
    }
    assert(r.len() > 0) by {
        if k + 1 == s.len() {
            assert(s.last() == s[k]);
        }
    }
    assert(r[0] != '/') by {
        assert(!slash_pair_at(s, k));
    }
    assert(r.last() == s.last());
    assert forall|i: int| !#[trigger] slash_pair_at(r, i) by {
        assert(!slash_pair_at(s, k + 1 + i));
        if 0 <= i < r.len() - 1 {
            assert(r[i] == s[k + 1 + i] && r[i + 1] == s[k + 1 + i + 1]);
        }
    }
    assert forall|i: int| !#[trigger] dot_segment_at(r, i) by {
        let x = k + 1 + i;
        assert(!dot_segment_at(s, x));
        if 0 <= i < r.len() {
            assert(r[i] == s[x]);
            if i > 0 {
                assert(r[i - 1] == s[x - 1]);
            }
            if i + 1 < r.len() {
                assert(r[i + 1] == s[x + 1]);
            }
        }
    }
    assert forall|i: int| !#[trigger] dot_dot_segment_at(r, i) by {
        let x = k + 1 + i;
        assert(!dot_dot_segment_at(s, x));
        if 0 <= i < r.len() - 1 {
            assert(r[i] == s[x] && r[i + 1] == s[x + 1]);
            if i > 0 {
                assert(r[i - 1] == s[x - 1]);
            }
            if i + 2 < r.len() {
                assert(r[i + 2] == s[x + 2]);
            }
        }
    }
}

proof fn lemma_clean_split_backward(s: Seq<char>, k: int)
    requires
        0 < k < s.len(),
        s[k] == '/',
        forall|j: int| 0 <= j < k ==> s[j] != '/',
        s.take(k) != seq!['.'],
        s.take(k) != seq!['.', '.'],
        clean_path(s.skip(k + 1)),
    ensures
        clean_path(s),
{
    let r = s.skip(k + 1);
    let seg = s.take(k);
    assert(s.last() == r.last());
    assert forall|i: int| !#[trigger] slash_pair_at(s, i) by {
        if 0 <= i < k {
            assert(s[i] != '/');
        } else if i == k {
            assert(k + 1 < s.len() ==> s[k + 1] == r[0]);
        } else if k < i < s.len() - 1 {
            assert(!slash_pair_at(r, i - k - 1));
            assert(s[i] == r[i - k - 1] && s[i + 1] == r[i - k]);
        }
    }
    assert forall|i: int| !#[trigger] dot_segment_at(s, i) by {
        if 0 <= i < k {
            if i > 0 {
                assert(s[i - 1] != '/');
            }
            if k > 1 {
                assert(s[1] != '/');
            }
            if k == 1 && s[0] == '.' {
                assert(seg =~= seq!['.']);
            }
        } else if k < i < s.len() {
            let y = i - k - 1;
            assert(!dot_segment_at(r, y));
            assert(s[i] == r[y]);
            if y > 0 {
                assert(s[i - 1] == r[y - 1]);
            }
            if i + 1 < s.len() {
                assert(s[i + 1] == r[y + 1]);
            }
        }
    }
    assert forall|i: int| !#[trigger] dot_dot_segment_at(s, i) by {
        if 0 <= i < k {
            if i > 0 {
                assert(s[i - 1] != '/');
            }
            if k > 2 {
                assert(s[2] != '/');
            }
            if k == 2 && s[0] == '.' && s[1] == '.' {
                assert(seg =~= seq!['.', '.']);
            }
        } else if k < i < s.len() - 1 {
            let y = i - k - 1;
            assert(!dot_dot_segment_at(r, y));
            assert(s[i] == r[y] && s[i + 1] == r[y + 1]);
            if y > 0 {
                assert(s[i - 1] == r[y - 1]);
            }
            if i + 2 < s.len() {
                assert(s[i + 2] == r[y + 2]);
            }
        }
    }
}

proof fn lemma_segments_ok_clean(s: Seq<char>)
    ensures
        segments_ok(s) == clean_path(s),
    decreases s.len(),
{
    let k = span_before(s, '/') as int;
    lemma_span_props(s, '/');
    if k >= s.len() {
        assert(s.take(k) =~= s);
        lemma_clean_without_slash(s);
    } else {
        lemma_segments_ok_clean(s.skip(k + 1));
        if clean_path(s) {
            lemma_clean_split_forward(s, k);
        }
        if k > 0 && s.take(k) != seq!['.'] && s.take(k) != seq!['.', '.'] && clean_path(
            s.skip(k + 1),
        ) {
            lemma_clean_split_backward(s, k);
        }
    }
}

/// A relative path is accepted exactly when it is not empty, neither
/// starts nor ends with `/`, holds no `//`, and has no segment that is `.`
/// or `..`: every other character is allowed.
pub proof fn law_relative_path_rule(s: Seq<char>)
    ensures
        is_safe_relative_path(s) == {
            &&& s.len() > 0
            &&& s[0] != '/'
            &&& s.last() != '/'
            &&& forall|i: int| !#[trigger] slash_pair_at(s, i)
            &&& forall|i: int| !#[trigger] dot_segment_at(s, i)
            &&& forall|i: int| !#[trigger] dot_dot_segment_at(s, i)
        },
{
    lemma_segments_ok_clean(s);
}

// ---------------------------------------------------------------------------
// Song file names
// ---------------------------------------------------------------------------

/// The characters that Windows refuses in a file name.
pub open spec fn is_reserved_file_char(c: char) -> bool {
    c == '\\' || c == '/' || c == ':' || c == '*' || c == '?' || c == '"' || c == '<' || c
        == '>' || c == '|'
}

pub open spec fn file_safe_char(c: char) -> char {
    if is_reserved_file_char(c) || is_control(c) {
        '_'
    } else {
        c
    }
}

/// The song title turned into a file-name stem: trimmed of white space, cut
/// to 80 characters, reserved and control characters replaced by `_`, dots
/// and spaces trimmed from both ends, and `karaoke` when nothing is left.
pub open spec fn song_file_stem(title: Seq<char>) -> Seq<char> {
    let t = trim(title, TrimSet::WhiteSpace);
    let cut = if t.len() <= 80 {
        t
    } else {
        t.take(80)
    };
    let mapped = Seq::new(cut.len(), |i: int| file_safe_char(cut[i]));
    let out = trim(mapped, TrimSet::DotOrSpace);
    if out.len() == 0 {
        "karaoke"@
    } else {
        out
    }
}

pub fn safe_song_filename(v: &str) -> (r: String)
    ensures
        r@ == song_file_stem(v@),
{
    let c = to_chars(v);
    let (a, b) = trim_range(&c, 0, c.len(), TrimSet::WhiteSpace);
    assert(c@.subrange(0, c@.len() as int) =~= v@);
    let end = if b - a <= 80 {
        b
    } else {
        a + 80
    };
    let ghost t = trim(v@, TrimSet::WhiteSpace);
    let ghost cut = if t.len() <= 80 {
        t
    } else {
        t.take(80)
    };
    assert(cut =~= c@.subrange(a as int, end as int));
    let mut mapped: Vec<char> = Vec::new();
    let mut i = a;
    while i < end
        invariant
            a <= i <= end <= c@.len(),
            cut =~= c@.subrange(a as int, end as int),
            mapped@.len() == i - a,
            forall|j: int| 0 <= j < i - a ==> #[trigger] mapped@[j] == file_safe_char(cut[j]),
        decreases end - i,
    {
        let ch = c[i];
        let reserved = ch == '\\' || ch == '/' || ch == ':' || ch == '*' || ch == '?' || ch
            == '"' || ch == '<' || ch == '>' || ch == '|';
        if reserved || control(ch) {
            mapped.push('_');
        } else {
            mapped.push(ch);
        }
        i = i + 1;
    }
    let ghost m = Seq::new(cut.len(), |j: int| file_safe_char(cut[j]));
    assert(mapped@ =~= m);
    let (p, q) = trim_range(&mapped, 0, mapped.len(), TrimSet::DotOrSpace);
    assert(mapped@.subrange(0, mapped@.len() as int) =~= m);
    if p == q {
        "karaoke".to_owned()
    } else {
        string_of(&mapped, p, q)
    }
}

/// A song file-name stem is never empty, has at most 80 characters, and
/// holds no character that is reserved in file names or a control
/// character, so it names a file inside the directory it is joined to.
pub proof fn law_song_file_stem_is_plain(title: Seq<char>)
    ensures
        ({
            let out = song_file_stem(title);
            &&& 0 < out.len() <= 80
            &&& forall|i: int| 0 <= i < out.len() ==> !is_reserved_file_char(#[trigger] out[i])
                && !is_control(out[i])
        }),
{
    let t = trim(title, TrimSet::WhiteSpace);
    let cut = if t.len() <= 80 {
        t
    } else {
        t.take(80)
    };
    let mapped = Seq::new(cut.len(), |i: int| file_safe_char(cut[i]));
    let (a, b) = lemma_trim_is_infix(mapped, TrimSet::DotOrSpace);
    let out = trim(mapped, TrimSet::DotOrSpace);
    if out.len() == 0 {
        reveal_strlit("karaoke");
    } else {
        assert forall|i: int| 0 <= i < out.len() implies !is_reserved_file_char(#[trigger] out[i])
            && !is_control(out[i]) by {
            assert(out[i] == mapped[a + i]);
        }
    }
}

/// Whether `s` neither starts nor ends with white space.
pub open spec fn no_edge_white_space(s: Seq<char>) -> bool {
    s.len() > 0 ==> !is_white_space(s[0]) && !is_white_space(s.last())
}

/// Turning a title into a file-name stem a second time changes nothing,
/// unless the stem starts or ends with (non-ASCII) white space; the stem of
/// an ASCII title never does.
pub proof fn law_song_file_stem_idempotent(title: Seq<char>)
    ensures
        no_edge_white_space(song_file_stem(title)) ==> song_file_stem(song_file_stem(title))
            == song_file_stem(title),
        is_ascii_chars(title) ==> no_edge_white_space(song_file_stem(title)),
{
    reveal_strlit("karaoke");
    let out = song_file_stem(title);
    law_song_file_stem_is_plain(title);
    let t = trim(title, TrimSet::WhiteSpace);
    let cut = if t.len() <= 80 {
        t
    } else {
        t.take(80)
    };
    let mapped = Seq::new(cut.len(), |i: int| file_safe_char(cut[i]));
    let trimmed = trim(mapped, TrimSet::DotOrSpace);
    lemma_trim_ends(mapped, TrimSet::DotOrSpace);
    if trimmed.len() > 0 {
        assert(out == trimmed);
        assert(!trims(TrimSet::DotOrSpace, out[0]) && !trims(TrimSet::DotOrSpace, out.last()));
    }
    if no_edge_white_space(out) {
        // every step of the rule leaves `out` as it is
        lemma_trim_keeps(out, TrimSet::WhiteSpace);
        assert(Seq::new(out.len(), |i: int| file_safe_char(out[i])) =~= out);
        assert(!trims(TrimSet::DotOrSpace, out[0]) && !trims(TrimSet::DotOrSpace, out.last()));
        lemma_trim_keeps(out, TrimSet::DotOrSpace);
    }
    if is_ascii_chars(title) && trimmed.len() > 0 {
        let (a1, b1) = lemma_trim_is_infix(title, TrimSet::WhiteSpace);
        let (a2, b2) = lemma_trim_is_infix(mapped, TrimSet::DotOrSpace);
        assert forall|i: int| 0 <= i < out.len() implies #[trigger] out[i] <= '\u{7f}' by {
            assert(out[i] == mapped[a2 + i]);
            assert(cut[a2 + i] == title[a1 + a2 + i]);
        }
        assert(out[0] <= '\u{7f}');
        assert(out.last() <= '\u{7f}');
    }
}

/// A title that starts and ends with an ASCII letter or digit and has at
/// most 80 characters keeps its length and every character, except that
/// `\ / : * ? " < > |` and control characters (U+0000 to U+001F and
/// U+007F to U+009F) each become `_`.
pub proof fn law_song_stem_keeps_characters(title: Seq<char>)
    requires
        0 < title.len() <= 80,
        ('0' <= title[0] && title[0] <= '9') || ('A' <= title[0] && title[0] <= 'Z') || ('a'
            <= title[0] && title[0] <= 'z'),
        ('0' <= title.last() && title.last() <= '9') || ('A' <= title.last() && title.last()
            <= 'Z') || ('a' <= title.last() && title.last() <= 'z'),
    ensures
        song_file_stem(title).len() == title.len(),
        forall|k: int|
            0 <= k < title.len() ==> #[trigger] song_file_stem(title)[k] == if title[k] == '\\'
                || title[k] == '/' || title[k] == ':' || title[k] == '*' || title[k] == '?'
                || title[k] == '"' || title[k] == '<' || title[k] == '>' || title[k] == '|'
                || title[k] <= '\u{1f}' || ('\u{7f}' <= title[k] && title[k] <= '\u{9f}') {
                '_'
            } else {
                title[k]
            },
{
    lemma_trim_keeps(title, TrimSet::WhiteSpace);
    let mapped = Seq::new(title.len(), |i: int| file_safe_char(title[i]));
    assert(mapped[0] == title[0]);
    assert(mapped.last() == title.last());
    lemma_trim_keeps(mapped, TrimSet::DotOrSpace);
    assert(song_file_stem(title) == mapped);
}

/// White space around a title does not matter: the stem of a title is the
/// stem of the title with its white space trimmed.
pub proof fn law_song_stem_ignores_outer_white_space(title: Seq<char>)
    ensures
        song_file_stem(title) == song_file_stem(trim(title, TrimSet::WhiteSpace)),
{
    lemma_trim_twice(title, TrimSet::WhiteSpace);
}

/// A title of nothing but dots and spaces gives the fallback stem
/// `karaoke`.
pub proof fn law_blank_title_falls_back(title: Seq<char>)
    requires
        forall|k: int| 0 <= k < title.len() ==> #[trigger] title[k] == ' ' || title[k] == '.',
    ensures
        song_file_stem(title) == "karaoke"@,
{
    let t = trim(title, TrimSet::WhiteSpace);
    let (a1, b1) = lemma_trim_is_infix(title, TrimSet::WhiteSpace);
    let cut = if t.len() <= 80 {
        t
    } else {
        t.take(80)
    };
    let mapped = Seq::new(cut.len(), |i: int| file_safe_char(cut[i]));
    assert forall|k: int| 0 <= k < mapped.len() implies trims(TrimSet::DotOrSpace, #[trigger] mapped[k]) by {
        assert(cut[k] == title[a1 + k]);
    }
    lemma_trim_all(mapped, TrimSet::DotOrSpace);
}

/// Every character of a song file-name stem is `_` or a character of the
/// title, unless the stem is the fallback `karaoke`.
pub proof fn law_song_stem_characters_come_from_title(title: Seq<char>)
    ensures
        song_file_stem(title) == "karaoke"@ || forall|k: int|
            0 <= k < song_file_stem(title).len() ==> #[trigger] song_file_stem(title)[k] == '_'
                || title.contains(song_file_stem(title)[k]),
{
    let out = song_file_stem(title);
    let t = trim(title, TrimSet::WhiteSpace);
    let cut = if t.len() <= 80 {
        t
    } else {
        t.take(80)
    };
    let mapped = Seq::new(cut.len(), |i: int| file_safe_char(cut[i]));
    let trimmed = trim(mapped, TrimSet::DotOrSpace);
    if trimmed.len() > 0 {
        let (a1, b1) = lemma_trim_is_infix(title, TrimSet::WhiteSpace);
        let (a2, b2) = lemma_trim_is_infix(mapped, TrimSet::DotOrSpace);
        assert forall|k: int| 0 <= k < out.len() implies #[trigger] out[k] == '_' || title.contains(
            out[k],
        ) by {
            assert(out[k] == mapped[a2 + k]);
            assert(cut[a2 + k] == title[a1 + a2 + k]);
        }
    }
}

/// A well-formed recording id is also a safe path component.
pub proof fn law_safe_id_is_safe_component(bytes: Seq<u8>)
    requires
        is_safe_id(bytes),
    ensures
        is_safe_component(bytes),
{
    assert forall|i: int| 0 <= i < bytes.len() implies is_component_byte(#[trigger] bytes[i]) by {
        assert(is_id_byte(bytes[i]));
    }
    if has_double_dot(bytes) {
        let i = choose|i: int| 0 <= i < bytes.len() - 1 && #[trigger] bytes[i] == 46 && bytes[i + 1] == 46;
        assert(is_id_byte(bytes[i]));
    }
}

// ---------------------------------------------------------------------------
// Media types
// ---------------------------------------------------------------------------

/// The essence of a MIME type: what precedes any `;`, white space trimmed.
pub open spec fn mime_essence(mime: Seq<char>) -> Seq<char> {
    trim(mime.take(span_before(mime, ';') as int), TrimSet::WhiteSpace)
}

/// The media type a recording stored for `mime` is served with: its essence
/// when that is WebM, Ogg or MP4 audio, and a byte stream otherwise.
pub open spec fn stored_media_type(mime: Seq<char>) -> Seq<char> {
    let essence = mime_essence(mime);
    if essence == "audio/webm"@ || essence == "audio/ogg"@ || essence == "audio/mp4"@ {
        essence
    } else {
        "application/octet-stream"@
    }
}

/// The file extension for a recorder's MIME type: its essence (before any
/// `;`, white space trimmed) picks `.webm`, `.ogg` or `.m4a`, anything else
/// `.bin`.
pub open spec fn mime_extension(mime: Seq<char>) -> Seq<char> {
    let essence = mime_essence(mime);
    if essence == "audio/webm"@ {
        ".webm"@
    } else if essence == "audio/ogg"@ {
        ".ogg"@
    } else if essence == "audio/mp4"@ {
        ".m4a"@
    } else {
        ".bin"@
    }
}

pub fn ext_for_mime(mime: &str) -> (r: &'static str)
    ensures
        r@ == mime_extension(mime@),
{
    let c = to_chars(mime);
    let n = c.len();
    let mut k: usize = 0;
    while k < n && c[k] != ';'
        invariant
            n == c@.len(),
            0 <= k <= n,
            forall|j: int| 0 <= j < k ==> c@[j] != ';',
        decreases n - k,
    {
        k = k + 1;
    }
    proof {
        lemma_span_before(c@, ';', k as int);
        assert(c@.take(k as int) =~= c@.subrange(0, k as int));
    }
    let (a, b) = trim_range(&c, 0, k, TrimSet::WhiteSpace);
    if chars_equal(&c, a, b, "audio/webm") {
        ".webm"
    } else if chars_equal(&c, a, b, "audio/ogg") {
        ".ogg"
    } else if chars_equal(&c, a, b, "audio/mp4") {
        ".m4a"
    } else {
        ".bin"
    }
}


// ---------------------------------------------------------------------------
// File names and extensions
// ---------------------------------------------------------------------------


/// The position of the last `c` in `s`, or -1.
pub open spec fn last_index_of(s: Seq<char>, c: char) -> int
    decreases s.len(),
{
    if s.len() == 0 {
        -1
    } else if s.last() == c {
        s.len() - 1
    } else {
        last_index_of(s.drop_last(), c)
    }
}

/// A bare file name, as a directory listing yields it: not empty, no `/`,
/// and neither `.` nor `..`.
pub open spec fn is_plain_file_name(s: Seq<char>) -> bool {
    &&& s.len() > 0
    &&& !s.contains('/')
    &&& s != seq!['.']
    &&& s != seq!['.', '.']
}

/// The extension of a bare file name as `Path::extension` documents it:
/// none without an embedded `.`, none when the only `.` leads the name, and
/// otherwise what follows the last `.`.
pub open spec fn name_extension(f: Seq<char>) -> Option<Seq<char>> {
    let d = last_index_of(f, '.');
    if d <= 0 {
        None
    } else {
        Some(f.skip(d + 1))
    }
}

/// The stem of a bare file name as `Path::file_stem` documents it: the
/// whole name without an embedded `.` or when the only `.` leads the name,
/// and otherwise what precedes the last `.`.
pub open spec fn name_stem(f: Seq<char>) -> Seq<char> {
    let d = last_index_of(f, '.');
    if d <= 0 {
        f
    } else {
        f.take(d)
    }
}

/// The file name of a Unix path, as `Path::file_name` documents it: its
/// last component, where empty components and `.` components after the
/// first are skipped; none when that is `..`, or when nothing but the root
/// or a leading `.` is left.
pub open spec fn file_name_of(path: Seq<char>) -> Option<Seq<char>>
    decreases path.len(),
{
    let k = last_index_of(path, '/');
    let last = path.skip(k + 1);
    if last == seq!['.', '.'] {
        None
    } else if last.len() == 0 || last == seq!['.'] {
        if k < 0 || k >= path.len() {
            None
        } else {
            file_name_of(path.take(k))
        }
    } else {
        Some(last)
    }
}

/// The extension of a path, as `Path::extension` documents it.
pub open spec fn extension_text(path: Seq<char>) -> Option<Seq<char>> {
    match file_name_of(path) {
        Some(f) => name_extension(f),
        None => None,
    }
}

/// The stem of a path, as `Path::file_stem` documents it.
pub open spec fn stem_text(path: Seq<char>) -> Option<Seq<char>> {
    match file_name_of(path) {
        Some(f) => Some(name_stem(f)),
        None => None,
    }
}

proof fn lemma_last_index_absent(s: Seq<char>, c: char)
    requires
        !s.contains(c),
    ensures
        last_index_of(s, c) == -1,
    decreases s.len(),
{
    if s.len() > 0 {
        assert(s.last() == s[s.len() - 1]);
        assert(!s.drop_last().contains(c)) by {
            if s.drop_last().contains(c) {
                let j = choose|j: int| 0 <= j < s.drop_last().len() && s.drop_last()[j] == c;
                assert(s[j] == c);
            }
        }
        lemma_last_index_absent(s.drop_last(), c);
    }
}

/// A bare file name is its own file name.
pub proof fn lemma_plain_file_name(s: Seq<char>)
    requires
        is_plain_file_name(s),
    ensures
        file_name_of(s) == Some(s),
{
    lemma_last_index_absent(s, '/');
    assert(s.skip(0) =~= s);
}

proof fn lemma_last_index_of(s: Seq<char>, c: char, k: int)
    requires
        0 <= k < s.len(),
        s[k] == c,
        forall|j: int| k < j < s.len() ==> s[j] != c,
    ensures
        last_index_of(s, c) == k,
    decreases s.len(),
{
    if s.last() != c {
        lemma_last_index_of(s.drop_last(), c, k);
    }
}

/// A non-empty stem without `/`, followed by the extension chosen for a
/// MIME type, is a bare file name whose stem is that stem and whose
/// extension is the chosen one without its dot.
pub proof fn lemma_stored_name(stem: Seq<char>, mime: Seq<char>)
    requires
        stem.len() > 0,
        !stem.contains('/'),
    ensures
        ({
            let name = stem + mime_extension(mime);
            &&& is_plain_file_name(name)
            &&& stem_text(name) == Some(stem)
            &&& extension_text(name) == Some(mime_extension(mime).skip(1))
        }),
{
    reveal_strlit(".webm");
    reveal_strlit(".ogg");
    reveal_strlit(".m4a");
    reveal_strlit(".bin");
    let ext = mime_extension(mime);
    let name = stem + ext;
    assert(!name.contains('/')) by {
        if name.contains('/') {
            let j = choose|j: int| 0 <= j < name.len() && name[j] == '/';
            if j < stem.len() {
                assert(stem[j] == name[j]);
            } else {
                assert(ext[j - stem.len()] == name[j]);
            }
        }
    }
    assert(name.len() >= 3);
    lemma_plain_file_name(name);
    assert(name[stem.len() as int] == '.');
    lemma_last_index_of(name, '.', stem.len() as int);
    assert(name.take(stem.len() as int) =~= stem);
    assert(name.skip(stem.len() + 1int) =~= ext.skip(1));
}

/// `Path::new(path).extension()` as text, for a Unix path: the rule that
/// the standard library documents, applied to the path's file name.
#[verifier::external_body]
fn extension_of(path: &str) -> (r: Option<String>)
    ensures
        r.deep_view() == extension_text(path@),
{
    std::path::Path::new(path).extension().and_then(|e| e.to_str()).map(|e| e.to_owned())
}

/// `Path::new(path).file_stem()` as text, for a Unix path: the documented
/// rule, applied to the path's file name.
#[verifier::external_body]
fn file_stem_of(path: &str) -> (r: Option<String>)
    ensures
        r.deep_view() == stem_text(path@),
{
    std::path::Path::new(path).file_stem().and_then(|e| e.to_str()).map(|e| e.to_owned())
}

/// The extension of `path`, if it has one.
pub fn file_extension(path: &str) -> (r: Option<String>)
    ensures
        r.deep_view() == extension_text(path@),
{
    extension_of(path)
}

/// The stem of `path`, if it has one.
pub fn file_stem(path: &str) -> (r: Option<String>)
    ensures
        r.deep_view() == stem_text(path@),
{
    file_stem_of(path)
}

pub open spec fn lowered(s: Seq<char>) -> Seq<char> {
    Seq::new(s.len(), |i: int| ascii_lower(s[i]))
}

/// The `Content-Type` served for a (lower-cased) file extension.
pub open spec fn media_type_for(ext: Seq<char>) -> Seq<char> {
    if ext == "html"@ {
        "text/html; charset=utf-8"@
    } else if ext == "js"@ {
        "text/javascript; charset=utf-8"@
    } else if ext == "wasm"@ {
        "application/wasm"@
    } else if ext == "css"@ {
        "text/css; charset=utf-8"@
    } else if ext == "json"@ {
        "application/json"@
    } else if ext == "webm"@ {
        "audio/webm"@
    } else if ext == "ogg"@ || ext == "opus"@ {
        "audio/ogg"@
    } else if ext == "m4a"@ || ext == "mp4"@ {
        "audio/mp4"@
    } else if ext == "wav"@ {
        "audio/wav"@
    } else {
        "application/octet-stream"@
    }
}

pub open spec fn extension_or_empty(path: Seq<char>) -> Seq<char> {
    match extension_text(path) {
        Some(e) => e,
        None => Seq::empty(),
    }
}

/// The `Content-Type` for a file: chosen by its extension, compared without
/// regard to ASCII case.
pub open spec fn content_type_of(path: Seq<char>) -> Seq<char> {
    media_type_for(lowered(extension_or_empty(path)))
}

pub fn content_type(path: &str) -> (r: &'static str)
    ensures
        r@ == content_type_of(path@),
{
    let ext = extension_of(path);
    let raw: Vec<char> = match &ext {
        Some(e) => to_chars(e.as_str()),
        None => Vec::new(),
    };
    let mut low: Vec<char> = Vec::new();
    let mut i: usize = 0;
    while i < raw.len()
        invariant
            0 <= i <= raw@.len(),
            low@.len() == i,
            forall|j: int| 0 <= j < i ==> #[trigger] low@[j] == ascii_lower(raw@[j]),
        decreases raw@.len() - i,
    {
        low.push(lower_ascii_char(raw[i]));
        i = i + 1;
    }
    assert(raw@ == extension_or_empty(path@));
    assert(low@ =~= lowered(extension_or_empty(path@)));
    let n = low.len();
    assert(low@.subrange(0, n as int) =~= low@);
    if chars_equal(&low, 0, n, "html") {
        "text/html; charset=utf-8"
    } else if chars_equal(&low, 0, n, "js") {
        "text/javascript; charset=utf-8"
    } else if chars_equal(&low, 0, n, "wasm") {
        "application/wasm"
    } else if chars_equal(&low, 0, n, "css") {
        "text/css; charset=utf-8"
    } else if chars_equal(&low, 0, n, "json") {
        "application/json"
    } else if chars_equal(&low, 0, n, "webm") {
        "audio/webm"
    } else if chars_equal(&low, 0, n, "ogg") || chars_equal(&low, 0, n, "opus") {
        "audio/ogg"
    } else if chars_equal(&low, 0, n, "m4a") || chars_equal(&low, 0, n, "mp4") {
        "audio/mp4"
    } else if chars_equal(&low, 0, n, "wav") {
        "audio/wav"
    } else {
        "application/octet-stream"
    }
}

/// Whether `s` ends with `suffix`.
pub open spec fn ends_with(s: Seq<char>, suffix: Seq<char>) -> bool {
    s.len() >= suffix.len() && s.skip(s.len() - suffix.len()) == suffix
}

pub fn str_ends_with(v: &Vec<char>, suffix: &str) -> (r: bool)
    ensures
        r == ends_with(v@, suffix@),
{
    let n = v.len();
    let w = to_chars(suffix);
    if w.len() > n {
        return false;
    }
    let r = chars_equal(v, n - w.len(), n, suffix);
    assert(v@.subrange(n - w@.len(), n as int) =~= v@.skip(n - w@.len()));
    r
}

/// A recording stored under a stem and the extension chosen for its MIME
/// type is served back with the media type it was recorded in (its essence,
/// when WebM, Ogg or MP4 audio).
pub proof fn law_stored_type_is_served(stem: Seq<char>, mime: Seq<char>)
    requires
        stem.len() > 0,
        !stem.contains('/'),
    ensures
        content_type_of(stem + mime_extension(mime)) == stored_media_type(mime),
{
    lemma_stored_name(stem, mime);
    reveal_strlit(".webm");
    reveal_strlit(".ogg");
    reveal_strlit(".m4a");
    reveal_strlit(".bin");
    reveal_strlit("webm");
    reveal_strlit("ogg");
    reveal_strlit("m4a");
    reveal_strlit("bin");
    reveal_strlit("html");
    reveal_strlit("js");
    reveal_strlit("wasm");
    reveal_strlit("css");
    reveal_strlit("json");
    reveal_strlit("opus");
    reveal_strlit("mp4");
    reveal_strlit("wav");
    let essence = mime_essence(mime);
    let ext = mime_extension(mime).skip(1);
    if essence == "audio/webm"@ {
        assert(ext =~= "webm"@);
        assert(lowered(ext) =~= "webm"@);
        assert("webm"@[0] != "html"@[0] && "webm"@[0] != "json"@[0] && "webm"@[1] != "wasm"@[1]);
    } else if essence == "audio/ogg"@ {
        assert(ext =~= "ogg"@);
        assert(lowered(ext) =~= "ogg"@);
        assert("ogg"@[0] != "css"@[0]);
    } else if essence == "audio/mp4"@ {
        assert(ext =~= "m4a"@);
        assert(lowered(ext) =~= "m4a"@);
        assert("m4a"@[0] != "ogg"@[0] && "m4a"@[0] != "css"@[0] && "m4a"@[0] != "wav"@[0]);
        assert("m4a"@[1] != "mp4"@[1]);
    } else {
        assert(ext =~= "bin"@);
        assert(lowered(ext) =~= "bin"@);
        assert("bin"@[0] != "ogg"@[0] && "bin"@[0] != "css"@[0] && "bin"@[0] != "mp4"@[0]);
        assert("bin"@[0] != "wav"@[0] && "bin"@[0] != "m4a"@[0]);
    }
}

} // verus!
