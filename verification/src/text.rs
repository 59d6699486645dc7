use vstd::prelude::*;

verus! {

// ---------------------------------------------------------------------------
// Character classes
// ---------------------------------------------------------------------------

/// Unicode `White_Space`, the property that `char::is_whitespace` tests and
/// that `str::trim` strips.
pub open spec fn is_white_space(c: char) -> bool {
    ||| ('\u{9}' <= c && c <= '\u{d}')
    ||| c == ' '
    ||| c == '\u{85}'
    ||| c == '\u{a0}'
    ||| c == '\u{1680}'
    ||| ('\u{2000}' <= c && c <= '\u{200a}')
    ||| c == '\u{2028}'
    ||| c == '\u{2029}'
    ||| c == '\u{202f}'
    ||| c == '\u{205f}'
    ||| c == '\u{3000}'
}

/// The Unicode general category `Cc`, which `char::is_control` tests.
pub open spec fn is_control(c: char) -> bool {
    c <= '\u{1f}' || ('\u{7f}' <= c && c <= '\u{9f}')
}

pub open spec fn is_ascii_alphanumeric_char(c: char) -> bool {
    ||| ('0' <= c && c <= '9')
    ||| ('A' <= c && c <= 'Z')
    ||| ('a' <= c && c <= 'z')
}

pub open spec fn is_ascii_alphanumeric_byte(b: u8) -> bool {
    ||| (48 <= b && b <= 57)
    ||| (65 <= b && b <= 90)
    ||| (97 <= b && b <= 122)
}

pub fn white_space(c: char) -> (r: bool)
    ensures
        r == is_white_space(c),
{
    ('\u{9}' <= c && c <= '\u{d}') || c == ' ' || c == '\u{85}' || c == '\u{a0}' || c
        == '\u{1680}' || ('\u{2000}' <= c && c <= '\u{200a}') || c == '\u{2028}' || c
        == '\u{2029}' || c == '\u{202f}' || c == '\u{205f}' || c == '\u{3000}'
}

pub fn control(c: char) -> (r: bool)
    ensures
        r == is_control(c),
{
    c <= '\u{1f}' || ('\u{7f}' <= c && c <= '\u{9f}')
}

pub fn ascii_alphanumeric_char(c: char) -> (r: bool)
    ensures
        r == is_ascii_alphanumeric_char(c),
{
    ('0' <= c && c <= '9') || ('A' <= c && c <= 'Z') || ('a' <= c && c <= 'z')
}

pub fn ascii_alphanumeric_byte(b: u8) -> (r: bool)
    ensures
        r == is_ascii_alphanumeric_byte(b),
{
    (48 <= b && b <= 57) || (65 <= b && b <= 90) || (97 <= b && b <= 122)
}

/// `char::to_ascii_lowercase`: ASCII capitals map to small letters, every
/// other character is kept.
pub open spec fn ascii_lower(c: char) -> char {
    if 'A' <= c && c <= 'Z' {
        ((c as u32) + 32) as char
    } else {
        c
    }
}

pub fn lower_ascii_char(c: char) -> (r: char)
    ensures
        r == ascii_lower(c),
{
    if 'A' <= c && c <= 'Z' {
        let b: u8 = c as u8;
        (b + 32) as char
    } else {
        c
    }
}


// ---------------------------------------------------------------------------
// Strings as character sequences
// ---------------------------------------------------------------------------

/// The characters of a string slice, in order.
pub fn to_chars(s: &str) -> (out: Vec<char>)
    ensures
        out@ == s@,
{
    let mut out: Vec<char> = Vec::new();
    for c in it: s.chars()
        invariant
            out@ == it.seq().take(it.index() as int),
            it.seq() == s@,
    {
        out.push(c);
    }
    out
}

/// Appends one character; `String::push`.
#[verifier::external_body]
pub(crate) fn push_char(s: &mut String, c: char)
    ensures
        final(s)@ == old(s)@.push(c),
{
    s.push(c);
}

/// Appends the characters `v[from..to]` to `out`.
pub fn push_chars(out: &mut String, v: &Vec<char>, from: usize, to: usize)
    requires
        from <= to <= v@.len(),
    ensures
        final(out)@ == old(out)@ + v@.subrange(from as int, to as int),
{
    let mut i = from;
    while i < to
        invariant
            from <= i <= to <= v@.len(),
            out@ == old(out)@ + v@.subrange(from as int, i as int),
        decreases to - i,
    {
        push_char(out, v[i]);
        assert(v@.subrange(from as int, i + 1) =~= v@.subrange(from as int, i as int).push(v@[i as int]));
        i = i + 1;
    }
}

/// A new string holding `v[from..to]`.
pub fn string_of(v: &Vec<char>, from: usize, to: usize) -> (s: String)
    requires
        from <= to <= v@.len(),
    ensures
        s@ == v@.subrange(from as int, to as int),
{
    let mut s = String::new();
    push_chars(&mut s, v, from, to);
    assert(Seq::<char>::empty() + v@.subrange(from as int, to as int) =~= v@.subrange(from as int, to as int));
    s
}

/// Whether `v[from..to]` spells `lit`.
pub fn chars_equal(v: &Vec<char>, from: usize, to: usize, lit: &str) -> (r: bool)
    requires
        from <= to <= v@.len(),
    ensures
        r == (v@.subrange(from as int, to as int) == lit@),
{
    let w = to_chars(lit);
    if to - from != w.len() {
        return false;
    }
    let mut i: usize = 0;
    while i < w.len()
        invariant
            from <= to <= v@.len(),
            to - from == w@.len(),
            w@ == lit@,
            0 <= i <= w@.len(),
            forall|k: int| 0 <= k < i ==> v@[from + k] == w@[k],
        decreases w@.len() - i,
    {
        if v[from + i] != w[i] {
            assert(v@.subrange(from as int, to as int)[i as int] != lit@[i as int]);
            return false;
        }
        i = i + 1;
    }
    assert(v@.subrange(from as int, to as int) =~= lit@);
    true
}


// ---------------------------------------------------------------------------
// Trimming
// ---------------------------------------------------------------------------

/// The character sets that the service trims from the ends of a string.
#[derive(Clone, Copy, Debug, PartialEq, Eq)]
pub enum TrimSet {
    /// Unicode white space, as `str::trim` strips it.
    WhiteSpace,
    /// `'.'` and `' '`, as `trim_matches(|c| c == '.' || c == ' ')` strips them.
    DotOrSpace,
}

pub open spec fn trims(set: TrimSet, c: char) -> bool {
    match set {
        TrimSet::WhiteSpace => is_white_space(c),
        TrimSet::DotOrSpace => c == '.' || c == ' ',
    }
}

pub fn trims_char(set: TrimSet, c: char) -> (r: bool)
    ensures
        r == trims(set, c),
{
    match set {
        TrimSet::WhiteSpace => white_space(c),
        TrimSet::DotOrSpace => c == '.' || c == ' ',
    }
}

/// `s` without its leading characters of `set`.
pub open spec fn trim_start(s: Seq<char>, set: TrimSet) -> Seq<char>
    decreases s.len(),
{
    if s.len() > 0 && trims(set, s[0]) {
        trim_start(s.drop_first(), set)
    } else {
        s
    }
}

/// `s` without its trailing characters of `set`.
pub open spec fn trim_end(s: Seq<char>, set: TrimSet) -> Seq<char>
    decreases s.len(),
{
    if s.len() > 0 && trims(set, s.last()) {
        trim_end(s.drop_last(), set)
    } else {
        s
    }
}

/// `s` without the characters of `set` at either end.
pub open spec fn trim(s: Seq<char>, set: TrimSet) -> Seq<char> {
    trim_end(trim_start(s, set), set)
}

/// The bounds of `trim(v[from..to], set)` inside `v`.
pub fn trim_range(v: &Vec<char>, from: usize, to: usize, set: TrimSet) -> (r: (usize, usize))
    requires
        from <= to <= v@.len(),
    ensures
        from <= r.0 <= r.1 <= to,
        v@.subrange(r.0 as int, r.1 as int) == trim(v@.subrange(from as int, to as int), set),
{
    let ghost whole = v@.subrange(from as int, to as int);
    let mut i = from;
    while i < to && trims_char(set, v[i])
        invariant
            from <= i <= to <= v@.len(),
            whole == v@.subrange(from as int, to as int),
            trim_start(whole, set) == trim_start(v@.subrange(i as int, to as int), set),
        decreases to - i,
    {
        assert(v@.subrange(i as int, to as int).drop_first() =~= v@.subrange(i + 1, to as int));
        i = i + 1;
    }
    let mut j = to;
    while j > i && trims_char(set, v[j - 1])
        invariant
            from <= i <= j <= to <= v@.len(),
            whole == v@.subrange(from as int, to as int),
            trim_start(whole, set) == v@.subrange(i as int, to as int),
            trim(whole, set) == trim_end(v@.subrange(i as int, j as int), set),
        decreases j - i,
    {
        assert(v@.subrange(i as int, j as int).drop_last() =~= v@.subrange(i as int, j - 1));
        j = j - 1;
    }
    (i, j)
}

/// Trimming the start drops a prefix.
pub proof fn lemma_trim_start_is_suffix(s: Seq<char>, set: TrimSet) -> (k: int)
    ensures
        0 <= k <= s.len(),
        trim_start(s, set) == s.skip(k),
    decreases s.len(),
{
    if s.len() > 0 && trims(set, s[0]) {
        let k2 = lemma_trim_start_is_suffix(s.drop_first(), set);
        assert(s.drop_first().skip(k2) =~= s.skip(k2 + 1));
        k2 + 1
    } else {
        assert(s.skip(0) =~= s);
        0
    }
}

/// Trimming the end drops a suffix.
pub proof fn lemma_trim_end_is_prefix(s: Seq<char>, set: TrimSet) -> (m: int)
    ensures
        0 <= m <= s.len(),
        trim_end(s, set) == s.take(m),
    decreases s.len(),
{
    if s.len() > 0 && trims(set, s.last()) {
        let m2 = lemma_trim_end_is_prefix(s.drop_last(), set);
        assert(s.drop_last().take(m2) =~= s.take(m2));
        m2
    } else {
        assert(s.take(s.len() as int) =~= s);
        s.len() as int
    }
}

/// Trimming keeps a contiguous part of the text.
pub proof fn lemma_trim_is_infix(s: Seq<char>, set: TrimSet) -> (r: (int, int))
    ensures
        0 <= r.0 <= r.1 <= s.len(),
        trim(s, set) == s.subrange(r.0, r.1),
{
    let k = lemma_trim_start_is_suffix(s, set);
    let m = lemma_trim_end_is_prefix(s.skip(k), set);
    assert(s.skip(k).take(m) =~= s.subrange(k, k + m));
    (k, k + m)
}

proof fn lemma_trim_start_first(s: Seq<char>, set: TrimSet)
    ensures
        trim_start(s, set).len() > 0 ==> !trims(set, trim_start(s, set)[0]),
    decreases s.len(),
{
    if s.len() > 0 && trims(set, s[0]) {
        lemma_trim_start_first(s.drop_first(), set);
    }
}

proof fn lemma_trim_end_last(s: Seq<char>, set: TrimSet)
    ensures
        trim_end(s, set).len() > 0 ==> !trims(set, trim_end(s, set).last()),
    decreases s.len(),
{
    if s.len() > 0 && trims(set, s.last()) {
        lemma_trim_end_last(s.drop_last(), set);
    }
}

/// What trimming leaves neither starts nor ends with a trimmed character.
pub proof fn lemma_trim_ends(s: Seq<char>, set: TrimSet)
    ensures
        trim(s, set).len() > 0 ==> !trims(set, trim(s, set)[0]) && !trims(
            set,
            trim(s, set).last(),
        ),
{
    let t = trim_start(s, set);
    lemma_trim_start_first(s, set);
    lemma_trim_end_last(t, set);
    let m = lemma_trim_end_is_prefix(t, set);
    if m > 0 {
        assert(trim(s, set)[0] == t[0]);
    }
}

proof fn lemma_trim_start_all(s: Seq<char>, set: TrimSet)
    requires
        forall|k: int| 0 <= k < s.len() ==> trims(set, #[trigger] s[k]),
    ensures
        trim_start(s, set).len() == 0,
    decreases s.len(),
{
    if s.len() > 0 {
        assert(trims(set, s[0]));
        assert forall|k: int| 0 <= k < s.drop_first().len() implies trims(
            set,
            #[trigger] s.drop_first()[k],
        ) by {
            assert(s.drop_first()[k] == s[k + 1]);
        }
        lemma_trim_start_all(s.drop_first(), set);
    }
}

/// Text made only of trimmed characters trims to nothing.
pub proof fn lemma_trim_all(s: Seq<char>, set: TrimSet)
    requires
        forall|k: int| 0 <= k < s.len() ==> trims(set, #[trigger] s[k]),
    ensures
        trim(s, set).len() == 0,
{
    lemma_trim_start_all(s, set);
}

/// Trimming twice trims no more than once.
pub proof fn lemma_trim_twice(s: Seq<char>, set: TrimSet)
    ensures
        trim(trim(s, set), set) == trim(s, set),
{
    let t = trim(s, set);
    lemma_trim_ends(s, set);
    if t.len() > 0 {
        lemma_trim_keeps(t, set);
    }
}

/// Text that neither starts nor ends with a trimmed character is left as
/// it is.
pub proof fn lemma_trim_keeps(s: Seq<char>, set: TrimSet)
    requires
        s.len() > 0,
        !trims(set, s[0]),
        !trims(set, s.last()),
    ensures
        trim(s, set) == s,
{
}

/// Whether `s` holds nothing but white space.
pub open spec fn is_blank(s: Seq<char>) -> bool {
    trim(s, TrimSet::WhiteSpace).len() == 0
}

/// `s.trim().is_empty()`.
pub fn blank(s: &str) -> (r: bool)
    ensures
        r == is_blank(s@),
{
    let v = to_chars(s);
    let (a, b) = trim_range(&v, 0, v.len(), TrimSet::WhiteSpace);
    assert(v@.subrange(0, v@.len() as int) =~= v@);
    a == b
}


// ---------------------------------------------------------------------------
// Decimal numbers
// ---------------------------------------------------------------------------

pub open spec fn digit_char(d: nat) -> char {
    (('0' as u32) + d) as char
}

pub open spec fn is_digit(c: char) -> bool {
    '0' <= c && c <= '9'
}

pub open spec fn digit_value(c: char) -> nat {
    ((c as u32) - ('0' as u32)) as nat
}

/// The decimal spelling of `n`, without sign or leading zeros; what
/// `Display` writes for an unsigned integer.
pub open spec fn decimal(n: nat) -> Seq<char>
    decreases n,
{
    if n < 10 {
        seq![digit_char(n)]
    } else {
        decimal(n / 10).push(digit_char(n % 10))
    }
}

/// The number that a string of decimal digits spells.
pub open spec fn digits_value(s: Seq<char>) -> nat
    decreases s.len(),
{
    if s.len() == 0 {
        0
    } else {
        digits_value(s.drop_last()) * 10 + digit_value(s.last())
    }
}

pub open spec fn all_digits(s: Seq<char>) -> bool {
    forall|i: int| 0 <= i < s.len() ==> is_digit(#[trigger] s[i])
}

/// `s` without one leading `'+'`.
pub open spec fn unsigned_digits(s: Seq<char>) -> Seq<char> {
    if s.len() > 0 && s[0] == '+' {
        s.drop_first()
    } else {
        s
    }
}

/// What `str::parse::<u64>` accepts: an optional `'+'`, then one or more
/// decimal digits whose value fits in a `u64`.
pub open spec fn parsed_u64(s: Seq<char>) -> Option<u64> {
    let d = unsigned_digits(s);
    if d.len() > 0 && all_digits(d) && digits_value(d) <= u64::MAX {
        Some(digits_value(d) as u64)
    } else {
        None
    }
}

/// Appends the decimal spelling of `n`.
pub fn push_decimal(out: &mut String, n: u64)
    ensures
        final(out)@ == old(out)@ + decimal(n as nat),
    decreases n,
{
    if n >= 10 {
        push_decimal(out, n / 10);
    }
    let d: u8 = (n % 10) as u8;
    push_char(out, (48u8 + d) as char);
    proof {
        if n >= 10 {
            assert(old(out)@ + decimal(n as nat) =~= old(out)@ + decimal((n / 10) as nat) + seq![digit_char((n % 10) as nat)]);
        } else {
            assert(old(out)@ + decimal(n as nat) =~= old(out)@ + seq![digit_char(n as nat)]);
        }
    }
}

/// `n.to_string()` for an unsigned integer.
pub fn u64_to_decimal(n: u64) -> (s: String)
    ensures
        s@ == decimal(n as nat),
{
    let mut s = String::new();
    push_decimal(&mut s, n);
    assert(Seq::<char>::empty() + decimal(n as nat) =~= decimal(n as nat));
    s
}

proof fn lemma_digits_value_prefix(s: Seq<char>, k: int)
    requires
        0 <= k <= s.len(),
    ensures
        digits_value(s.take(k)) <= digits_value(s),
    decreases s.len(),
{
    if k < s.len() {
        lemma_digits_value_prefix(s.drop_last(), k);
        assert(s.drop_last().take(k) =~= s.take(k));
    } else {
        assert(s.take(k) =~= s);
    }
}

/// `s.parse::<u64>().ok()`.
pub fn parse_u64(s: &str) -> (r: Option<u64>)
    ensures
        r == parsed_u64(s@),
{
    let v = to_chars(s);
    let ghost d = unsigned_digits(s@);
    let mut i: usize = 0;
    if v.len() > 0 && v[0] == '+' {
        i = 1;
    }
    assert(d =~= v@.skip(i as int));
    if i == v.len() {
        return None;
    }
    let start = i;
    let mut acc: u64 = 0;
    while i < v.len()
        invariant
            0 <= start <= i <= v@.len(),
            start < v@.len(),
            v@ == s@,
            d == v@.skip(start as int),
            d == unsigned_digits(s@),
            all_digits(d.take(i - start)),
            acc as nat == digits_value(d.take(i - start)),
        decreases v@.len() - i,
    {
        let c = v[i];
        assert(d[i - start] == c);
        if c < '0' || c > '9' {
            assert(!all_digits(d));
            return None;
        }
        let dv: u64 = (c as u8 - 48u8) as u64;
        assert(d.take(i + 1 - start).drop_last() =~= d.take(i - start));
        assert(d.take(i + 1 - start).last() == c);
        match acc.checked_mul(10) {
            Some(m) => match m.checked_add(dv) {
                Some(a) => {
                    acc = a;
                },
                None => {
                    proof {
                        if all_digits(d) {
                            lemma_digits_value_prefix(d, i + 1 - start);
                        }
                    }
                    return None;
                },
            },
            None => {
                proof {
                    if all_digits(d) {
                        lemma_digits_value_prefix(d, i + 1 - start);
                    }
                }
                return None;
            },
        }
        i = i + 1;
    }
    assert(d.take(i - start) =~= d);
    Some(acc)
}

/// Reading back what `u64_to_decimal` wrote gives the number again.
pub proof fn lemma_decimal_parse_roundtrip(n: u64)
    ensures
        parsed_u64(decimal(n as nat)) == Some(n),
{
    lemma_decimal_digits(n as nat);
}

proof fn lemma_digit_char(d: nat)
    requires
        d < 10,
    ensures
        is_digit(digit_char(d)),
        digit_value(digit_char(d)) == d,
{
    assert((('0' as u32) + d) as char as u32 == 48 + d);
}

proof fn lemma_decimal_digits(n: nat)
    ensures
        decimal(n).len() > 0,
        all_digits(decimal(n)),
        digits_value(decimal(n)) == n,
        decimal(n)[0] != '+',
    decreases n,
{
    lemma_digit_char(n % 10);
    if n >= 10 {
        lemma_decimal_digits(n / 10);
        let t = decimal(n / 10);
        assert(decimal(n).drop_last() =~= t);
        assert(decimal(n)[0] == t[0]);
        assert(digits_value(decimal(n)) == digits_value(t) * 10 + digit_value(digit_char(n % 10)));
    } else {
        assert(decimal(n).drop_last() =~= Seq::<char>::empty());
        assert(digits_value(decimal(n)) == digits_value(Seq::<char>::empty()) * 10 + digit_value(digit_char(n)));
    }
}


/// Whether two strings hold the same characters.
pub fn str_eq(a: &str, b: &str) -> (r: bool)
    ensures
        r == (a@ == b@),
{
    let v = to_chars(a);
    let r = chars_equal(&v, 0, v.len(), b);
    assert(v@.subrange(0, v@.len() as int) =~= a@);
    r
}


/// Appends the characters of `s`.
pub fn push_text(out: &mut String, s: &str)
    ensures
        final(out)@ == old(out)@ + s@,
{
    let v = to_chars(s);
    push_chars(out, &v, 0, v.len());
    assert(v@.subrange(0, v@.len() as int) =~= s@);
}

} // verus!
