//! Character and string primitives shared by the rest of the library.
//!
//! Text is handled as sequences of Unicode scalar values (`Seq<char>`), which
//! is also how vstd views `String` and `str`.

use vstd::prelude::*;

verus! {

/// Unicode `White_Space`, the set that `char::is_whitespace`, `str::trim` and
/// `str::split_whitespace` use.
pub open spec fn is_ws(c: char) -> bool {
    let v = c as u32;
    (0x9 <= v && v <= 0xD) || v == 0x20 || v == 0x85 || v == 0xA0 || v == 0x1680 || (0x2000 <= v
        && v <= 0x200A) || v == 0x2028 || v == 0x2029 || v == 0x202F || v == 0x205F || v == 0x3000
}

pub fn char_is_ws(c: char) -> (r: bool)
    ensures
        r == is_ws(c),
{
    let v = c as u32;
    (0x9 <= v && v <= 0xD) || v == 0x20 || v == 0x85 || v == 0xA0 || v == 0x1680 || (0x2000 <= v
        && v <= 0x200A) || v == 0x2028 || v == 0x2029 || v == 0x202F || v == 0x205F || v == 0x3000
}

pub open spec fn is_ascii_digit(c: char) -> bool {
    '0' <= c && c <= '9'
}

pub open spec fn is_ascii_alnum(c: char) -> bool {
    ('0' <= c && c <= '9') || ('a' <= c && c <= 'z') || ('A' <= c && c <= 'Z')
}

/// `char::to_ascii_lowercase`.
pub open spec fn ascii_lower(c: char) -> char {
    if 'A' <= c && c <= 'Z' {
        ((c as u32) + 32) as char
    } else {
        c
    }
}

pub fn char_ascii_lower(c: char) -> (r: char)
    ensures
        r == ascii_lower(c),
{
    if 'A' <= c && c <= 'Z' {
        let v = (c as u32) + 32;
        assert(v <= 0x7F);
        v as u8 as char
    } else {
        c
    }
}

/// Name for what `char::is_alphanumeric` answers (Unicode `Alphabetic` or
/// `Numeric`); it depends on the character alone.
pub uninterp spec fn unicode_alphanumeric(c: char) -> bool;

/// `char::is_alphanumeric`: the answer is the named Unicode property of `c`;
/// for an ASCII character it is true exactly for the letters and digits.
#[verifier::external_body]
pub fn char_is_alphanumeric(c: char) -> (r: bool)
    ensures
        r == unicode_alphanumeric(c),
        (c as u32) < 128 ==> (r <==> ('a' <= c <= 'z' || 'A' <= c <= 'Z' || '0' <= c <= '9')),
{
    c.is_alphanumeric()
}

/// Name for what `str::to_lowercase` gives (full Unicode lowercase mapping); it
/// depends on the text alone.
pub uninterp spec fn unicode_lowercase(s: Seq<char>) -> Seq<char>;

/// `str::to_lowercase`: the result is the named Unicode lowercase mapping of
/// `s`; the empty string stays empty.
#[verifier::external_body]
pub fn to_lowercase(s: &str) -> (r: String)
    ensures
        r@ == unicode_lowercase(s@),
        s@.len() == 0 ==> r@.len() == 0,
{
    s.to_lowercase()
}

/// Name for the quoted, escaped form that `<str as Debug>::fmt` writes; it
/// depends on the text alone.
pub uninterp spec fn debug_quoted(s: Seq<char>) -> Seq<char>;

/// `<str as Debug>::fmt`: the text in double quotes with Rust escapes.  Only
/// the name is stated; the escaping rules are not.
#[verifier::external_body]
pub fn debug_quote(s: &str) -> (r: String)
    ensures
        r@ == debug_quoted(s@),
{
    format!("{s:?}")
}

/// Appends one character; `String::push`.
#[verifier::external_body]
pub fn push_char(s: &mut String, c: char)
    ensures
        final(s)@ == old(s)@.push(c),
{
    s.push(c);
}

/// The characters of `s`, in order.
pub fn chars_of(s: &str) -> (v: Vec<char>)
    ensures
        v@ == s@,
{
    broadcast use vstd::string::group_string_axioms;

    let mut v: Vec<char> = Vec::new();
    for c in it: s.chars()
        invariant
            v@ == it.seq().take(it.index()),
            it.seq() == s@,
    {
        v.push(c);
    }
    v
}

/// A `String` holding exactly the characters of `v`.
pub fn string_of(v: &[char]) -> (s: String)
    ensures
        s@ == v@,
{
    let mut s = String::new();
    let mut i: usize = 0;
    while i < v.len()
        invariant
            i <= v.len(),
            s@ == v@.take(i as int),
        decreases v.len() - i,
    {
        push_char(&mut s, v[i]);
        i = i + 1;
        assert(v@.take(i as int) == v@.take(i - 1).push(v@[i - 1]));
    }
    assert(v@.take(v.len() as int) == v@);
    s
}

/// Appends the characters of `v` to `s`.
pub fn append_chars(s: &mut String, v: &[char])
    ensures
        final(s)@ == old(s)@ + v@,
{
    let ghost start = s@;
    let mut i: usize = 0;
    while i < v.len()
        invariant
            i <= v.len(),
            s@ == start + v@.take(i as int),
        decreases v.len() - i,
    {
        push_char(s, v[i]);
        i = i + 1;
        assert(v@.take(i as int) == v@.take(i - 1).push(v@[i - 1]));
    }
    assert(v@.take(v.len() as int) == v@);
}

/// Appends a string slice to `s`.
pub fn append_str(s: &mut String, t: &str)
    ensures
        final(s)@ == old(s)@ + t@,
{
    let v = chars_of(t);
    append_chars(s, v.as_slice());
}

/// Whether the characters of `v` are exactly those of `lit`.
pub fn chars_eq(v: &[char], lit: &str) -> (r: bool)
    ensures
        r == (v@ == lit@),
{
    let w = chars_of(lit);
    if v.len() != w.len() {
        return false;
    }
    let mut i: usize = 0;
    while i < v.len()
        invariant
            i <= v.len(),
            v.len() == w.len(),
            w@ == lit@,
            forall|k: int| 0 <= k < i ==> v@[k] == w@[k],
        decreases v.len() - i,
    {
        if v[i] != w[i] {
            return false;
        }
        i = i + 1;
    }
    assert(v@ == w@);
    true
}

/// Whether `v` begins with the characters of `lit`.
pub fn starts_with_lit(v: &[char], lit: &str) -> (r: bool)
    ensures
        r == (lit@.len() <= v@.len() && v@.take(lit@.len() as int) == lit@),
{
    let w = chars_of(lit);
    if w.len() > v.len() {
        return false;
    }
    let mut i: usize = 0;
    while i < w.len()
        invariant
            i <= w.len(),
            w.len() <= v.len(),
            w@ == lit@,
            forall|k: int| 0 <= k < i ==> v@[k] == w@[k],
        decreases w.len() - i,
    {
        if v[i] != w[i] {
            assert(v@.take(w.len() as int)[i as int] != w@[i as int]);
            return false;
        }
        i = i + 1;
    }
    assert(v@.take(w.len() as int) == w@);
    true
}

/// `v[from..]` as a new vector.
pub fn suffix_from(v: &[char], from: usize) -> (r: Vec<char>)
    requires
        from <= v@.len(),
    ensures
        r@ == v@.skip(from as int),
{
    let mut r: Vec<char> = Vec::new();
    let mut i = from;
    while i < v.len()
        invariant
            from <= i <= v.len(),
            r@ == v@.subrange(from as int, i as int),
        decreases v.len() - i,
    {
        r.push(v[i]);
        i = i + 1;
        assert(v@.subrange(from as int, i as int) == v@.subrange(from as int, i - 1).push(
            v@[i - 1],
        ));
    }
    r
}

/// `v[from..to]` as a new vector.
pub fn slice_chars(v: &[char], from: usize, to: usize) -> (r: Vec<char>)
    requires
        from <= to <= v@.len(),
    ensures
        r@ == v@.subrange(from as int, to as int),
{
    let mut r: Vec<char> = Vec::new();
    let mut i = from;
    while i < to
        invariant
            from <= i <= to,
            to <= v.len(),
            r@ == v@.subrange(from as int, i as int),
        decreases to - i,
    {
        r.push(v[i]);
        i = i + 1;
        assert(v@.subrange(from as int, i as int) == v@.subrange(from as int, i - 1).push(
            v@[i - 1],
        ));
    }
    r
}

// ---------------------------------------------------------------------------
// Trimming
// ---------------------------------------------------------------------------

/// `s` without its leading white space.
pub open spec fn trim_start(s: Seq<char>) -> Seq<char>
    decreases s.len(),
{
    if s.len() > 0 && is_ws(s[0]) {
        trim_start(s.drop_first())
    } else {
        s
    }
}

/// `s` without its trailing white space.
pub open spec fn trim_end(s: Seq<char>) -> Seq<char>
    decreases s.len(),
{
    if s.len() > 0 && is_ws(s.last()) {
        trim_end(s.drop_last())
    } else {
        s
    }
}

/// `str::trim`.
pub open spec fn trim(s: Seq<char>) -> Seq<char> {
    trim_end(trim_start(s))
}

proof fn lemma_trim_start_skip(s: Seq<char>, a: int)
    requires
        0 <= a <= s.len(),
        forall|k: int| 0 <= k < a ==> is_ws(s[k]),
    ensures
        trim_start(s) == trim_start(s.skip(a)),
    decreases a,
{
    if a > 0 {
        assert(s.drop_first().skip(a - 1) == s.skip(a));
        lemma_trim_start_skip(s.drop_first(), a - 1);
    } else {
        assert(s.skip(0) == s);
    }
}

proof fn lemma_trim_end_take(s: Seq<char>, b: int)
    requires
        0 <= b <= s.len(),
        forall|k: int| b <= k < s.len() ==> is_ws(s[k]),
    ensures
        trim_end(s) == trim_end(s.take(b)),
    decreases s.len() - b,
{
    if b < s.len() {
        assert(s.drop_last().take(b) == s.take(b));
        lemma_trim_end_take(s.drop_last(), b);
    } else {
        assert(s.take(b) == s);
    }
}

/// Bounds of `trim(v)` inside `v`.
pub fn trim_bounds(v: &[char]) -> (r: (usize, usize))
    ensures
        r.0 <= r.1 <= v@.len(),
        trim(v@) == v@.subrange(r.0 as int, r.1 as int),
        trim_start(v@) == v@.skip(r.0 as int),
{
    let mut a: usize = 0;
    while a < v.len() && char_is_ws(v[a])
        invariant
            a <= v.len(),
            forall|k: int| 0 <= k < a ==> is_ws(v@[k]),
        decreases v.len() - a,
    {
        a = a + 1;
    }
    proof {
        lemma_trim_start_skip(v@, a as int);
    }
    let mut b: usize = v.len();
    while b > a && char_is_ws(v[b - 1])
        invariant
            a <= b <= v.len(),
            forall|k: int| b <= k < v.len() ==> is_ws(v@[k]),
        decreases b,
    {
        b = b - 1;
    }
    proof {
        let t = v@.skip(a as int);
        assert(trim_start(t) == t);
        lemma_trim_end_take(t, (b - a) as int);
        assert(t.take((b - a) as int) == v@.subrange(a as int, b as int));
        let u = v@.subrange(a as int, b as int);
        if u.len() > 0 {
            assert(!is_ws(u.last()));
        }
    }
    (a, b)
}

/// Trimming twice is trimming once.
pub proof fn lemma_trim_idempotent(s: Seq<char>)
    ensures
        trim(trim(s)) == trim(s),
{
    let t = trim(s);
    lemma_trim_start_end_shape(s);
}

proof fn lemma_trim_start_shape(s: Seq<char>)
    ensures
        trim_start(s).len() > 0 ==> !is_ws(trim_start(s)[0]),
        trim_start(trim_start(s)) == trim_start(s),
    decreases s.len(),
{
    if s.len() > 0 && is_ws(s[0]) {
        lemma_trim_start_shape(s.drop_first());
    }
}

proof fn lemma_trim_end_keeps_start(s: Seq<char>)
    requires
        s.len() > 0 ==> !is_ws(s[0]),
    ensures
        trim_end(s).len() > 0 ==> !is_ws(trim_end(s)[0]),
        trim_end(s).len() > 0 ==> !is_ws(trim_end(s).last()),
        trim_end(s).len() > 0 ==> trim_end(s)[0] == s[0],
    decreases s.len(),
{
    if s.len() > 0 && is_ws(s.last()) {
        lemma_trim_end_keeps_start(s.drop_last());
    }
}

proof fn lemma_trim_start_end_shape(s: Seq<char>)
    ensures
        trim(trim(s)) == trim(s),
{
    lemma_trim_start_shape(s);
    let a = trim_start(s);
    lemma_trim_end_keeps_start(a);
    let t = trim_end(a);
    assert(trim_start(t) == t);
    assert(trim_end(t) == t);
}

/// `str::trim` on characters.
pub fn trim_chars(v: &[char]) -> (r: Vec<char>)
    ensures
        r@ == trim(v@),
{
    let (a, b) = trim_bounds(v);
    slice_chars(v, a, b)
}

// ---------------------------------------------------------------------------
// Splitting on white space and joining
// ---------------------------------------------------------------------------

/// The run of non-white-space characters at the end of `s`.
pub open spec fn pending_word(s: Seq<char>) -> Seq<char>
    decreases s.len(),
{
    if s.len() == 0 {
        seq![]
    } else if is_ws(s.last()) {
        seq![]
    } else {
        pending_word(s.drop_last()).push(s.last())
    }
}

/// The words of `s` that a later white-space character has already closed.
pub open spec fn closed_words(s: Seq<char>) -> Seq<Seq<char>>
    decreases s.len(),
{
    if s.len() == 0 {
        seq![]
    } else if is_ws(s.last()) && pending_word(s.drop_last()).len() > 0 {
        closed_words(s.drop_last()).push(pending_word(s.drop_last()))
    } else {
        closed_words(s.drop_last())
    }
}

/// `str::split_whitespace`: the maximal runs of non-white-space characters.
pub open spec fn words(s: Seq<char>) -> Seq<Seq<char>> {
    if pending_word(s).len() > 0 {
        closed_words(s).push(pending_word(s))
    } else {
        closed_words(s)
    }
}

/// The views of a vector of character vectors.
pub open spec fn views(v: Seq<Vec<char>>) -> Seq<Seq<char>> {
    v.map_values(|w: Vec<char>| w@)
}

/// The views of a vector of strings.
pub open spec fn string_views(v: Seq<String>) -> Seq<Seq<char>> {
    v.map_values(|s: String| s@)
}

/// `ws` joined with `sep` between consecutive items (`[T]::join`).
pub open spec fn join(ws: Seq<Seq<char>>, sep: Seq<char>) -> Seq<char>
    decreases ws.len(),
{
    if ws.len() == 0 {
        seq![]
    } else if ws.len() == 1 {
        ws[0]
    } else {
        join(ws.drop_last(), sep) + sep + ws.last()
    }
}

/// `str::split_whitespace` on characters.
pub fn split_ws(v: &[char]) -> (r: Vec<Vec<char>>)
    ensures
        views(r@) == words(v@),
{
    let mut acc: Vec<Vec<char>> = Vec::new();
    let mut cur: Vec<char> = Vec::new();
    let mut i: usize = 0;
    while i < v.len()
        invariant
            i <= v.len(),
            cur@ == pending_word(v@.take(i as int)),
            views(acc@) == closed_words(v@.take(i as int)),
        decreases v.len() - i,
    {
        let ghost pre = v@.take(i as int);
        let c = v[i];
        assert(v@.take(i + 1).drop_last() == pre);
        if char_is_ws(c) {
            if cur.len() > 0 {
                let w = cur;
                acc.push(w);
                cur = Vec::new();
                assert(views(acc@) == views(acc@.drop_last()).push(acc@.last()@));
            }
        } else {
            cur.push(c);
        }
        i = i + 1;
    }
    assert(v@.take(v.len() as int) == v@);
    if cur.len() > 0 {
        acc.push(cur);
        assert(views(acc@) == views(acc@.drop_last()).push(acc@.last()@));
    }
    acc
}

/// The items of `ws` joined with `sep`.
pub fn join_chars(ws: &Vec<Vec<char>>, sep: &str) -> (r: String)
    ensures
        r@ == join(views(ws@), sep@),
{
    let mut r = String::new();
    let mut i: usize = 0;
    while i < ws.len()
        invariant
            i <= ws.len(),
            r@ == join(views(ws@).take(i as int), sep@),
        decreases ws.len() - i,
    {
        let ghost pre = views(ws@).take(i as int);
        assert(views(ws@).take(i + 1).drop_last() == pre);
        assert(views(ws@).take(i + 1).last() == ws@[i as int]@);
        if i > 0 {
            append_str(&mut r, sep);
        }
        append_chars(&mut r, ws[i].as_slice());
        i = i + 1;
    }
    assert(views(ws@).take(ws.len() as int) == views(ws@));
    r
}

/// `value.split_whitespace().collect::<Vec<_>>().join(" ")`.
pub open spec fn collapse_ws(s: Seq<char>) -> Seq<char> {
    join(words(s), seq![' '])
}

/// Collapses every run of white space to one space and drops white space at
/// both ends.
pub fn collapse_whitespace(value: &str) -> (r: String)
    ensures
        r@ == collapse_ws(value@),
{
    let v = chars_of(value);
    let ws = split_ws(v.as_slice());
    proof {
        reveal_strlit(" ");
    }
    let r = join_chars(&ws, " ");
    assert(" "@ == seq![' ']);
    r
}

// ---------------------------------------------------------------------------
// Decimal numbers
// ---------------------------------------------------------------------------

pub open spec fn digit_char(d: nat) -> char {
    (('0' as u32) + d) as char
}

/// The decimal digits of `n`, without sign or leading zeros (`{}` on an
/// unsigned integer).
pub open spec fn decimal(n: nat) -> Seq<char>
    decreases n,
{
    if n < 10 {
        seq![digit_char(n)]
    } else {
        decimal(n / 10).push(digit_char(n % 10))
    }
}

/// `s` left-padded with '0' to at least `width` characters (`{:0width$}`).
pub open spec fn zero_pad(s: Seq<char>, width: nat) -> Seq<char> {
    if s.len() >= width {
        s
    } else {
        Seq::new((width - s.len()) as nat, |_i: int| '0') + s
    }
}

pub open spec fn pow10(k: nat) -> nat
    decreases k,
{
    if k == 0 {
        1
    } else {
        10 * pow10((k - 1) as nat)
    }
}

proof fn lemma_decimal_len_le(n: nat, k: nat)
    requires
        k >= 1,
        n < pow10(k),
    ensures
        1 <= decimal(n).len() <= k,
    decreases k,
{
    if n >= 10 {
        let p = pow10((k - 1) as nat);
        assert(k >= 2) by {
            if k == 1 {
                assert(pow10(1) == 10 * pow10(0));
            }
        }
        assert(n / 10 < p) by (nonlinear_arith)
            requires
                n < 10 * p,
        ;
        lemma_decimal_len_le(n / 10, (k - 1) as nat);
    }
}

/// Appends `decimal(n)` to `s`.
pub fn push_decimal(s: &mut String, n: u64)
    ensures
        final(s)@ == old(s)@ + decimal(n as nat),
    decreases n,
{
    if n >= 10 {
        push_decimal(s, n / 10);
    }
    let d = (n % 10) as u32;
    let c = ('0' as u32 + d) as u8 as char;
    assert(c == digit_char((n % 10) as nat));
    push_char(s, c);
    assert(decimal(n as nat) == if n < 10 {
        seq![digit_char(n as nat)]
    } else {
        decimal((n / 10) as nat).push(digit_char((n % 10) as nat))
    });
}

/// Number of decimal digits of `n`.
pub fn decimal_len(n: u64) -> (r: usize)
    ensures
        r == decimal(n as nat).len(),
    decreases n,
{
    if n < 10 {
        1
    } else {
        let k = decimal_len(n / 10);
        proof {
            lemma_decimal_len_bound(n as nat);
        }
        k + 1
    }
}

proof fn lemma_decimal_len_bound(n: nat)
    requires
        n <= u64::MAX,
    ensures
        1 <= decimal(n).len() <= 20,
{
    reveal_with_fuel(pow10, 21);
    assert(pow10(20) == 100000000000000000000);
    lemma_decimal_len_le(n, 20);
}

/// Appends `zero_pad(decimal(n), width)` to `s`.
pub fn push_padded(s: &mut String, n: u64, width: usize)
    ensures
        final(s)@ == old(s)@ + zero_pad(decimal(n as nat), width as nat),
{
    let len = decimal_len(n);
    let ghost start = s@;
    if len < width {
        let mut i: usize = len;
        while i < width
            invariant
                len <= i <= width,
                s@ == start + Seq::new((i - len) as nat, |_k: int| '0'),
            decreases width - i,
        {
            push_char(s, '0');
            i = i + 1;
            assert(Seq::new((i - len) as nat, |_k: int| '0') == Seq::new(
                (i - 1 - len) as nat,
                |_k: int| '0',
            ).push('0'));
        }
    }
    let ghost mid = s@;
    push_decimal(s, n);
    assert(s@ == start + zero_pad(decimal(n as nat), width as nat));
}

/// `n.to_string()` for an unsigned integer.
pub fn decimal_string(n: u64) -> (r: String)
    ensures
        r@ == decimal(n as nat),
{
    let mut s = String::new();
    push_decimal(&mut s, n);
    s
}

} // verus!

verus! {

/// The strings of `ws` joined with `sep`.
pub fn join_strings(ws: &Vec<String>, sep: &str) -> (r: String)
    ensures
        r@ == join(string_views(ws@), sep@),
{
    let mut r = String::new();
    let mut i: usize = 0;
    while i < ws.len()
        invariant
            i <= ws.len(),
            r@ == join(string_views(ws@).take(i as int), sep@),
        decreases ws.len() - i,
    {
        assert(string_views(ws@).take(i + 1).drop_last() == string_views(ws@).take(i as int));
        assert(string_views(ws@).take(i + 1).last() == ws@[i as int]@);
        if i > 0 {
            append_str(&mut r, sep);
        }
        append_str(&mut r, ws[i].as_str());
        i = i + 1;
    }
    assert(string_views(ws@).take(ws.len() as int) == string_views(ws@));
    r
}

/// `str::trim` on a string slice.
pub fn trim_str(s: &str) -> (r: Vec<char>)
    ensures
        r@ == trim(s@),
{
    let v = chars_of(s);
    trim_chars(v.as_slice())
}

} // verus!

verus! {

// ---------------------------------------------------------------------------
// Stripping by a predicate (`str::trim_matches` with a closure)
// ---------------------------------------------------------------------------

/// `s` without its leading characters that satisfy `p`.
pub open spec fn strip_start_where(s: Seq<char>, p: spec_fn(char) -> bool) -> Seq<char>
    decreases s.len(),
{
    if s.len() > 0 && p(s[0]) {
        strip_start_where(s.drop_first(), p)
    } else {
        s
    }
}

/// `s` without its trailing characters that satisfy `p`.
pub open spec fn strip_end_where(s: Seq<char>, p: spec_fn(char) -> bool) -> Seq<char>
    decreases s.len(),
{
    if s.len() > 0 && p(s.last()) {
        strip_end_where(s.drop_last(), p)
    } else {
        s
    }
}

/// `s.trim_matches(p)`: the characters satisfying `p` removed from both ends.
pub open spec fn strip_where(s: Seq<char>, p: spec_fn(char) -> bool) -> Seq<char> {
    strip_end_where(strip_start_where(s, p), p)
}

pub proof fn lemma_strip_start_skip(s: Seq<char>, p: spec_fn(char) -> bool, a: int)
    requires
        0 <= a <= s.len(),
        forall|k: int| 0 <= k < a ==> p(#[trigger] s[k]),
    ensures
        strip_start_where(s, p) == strip_start_where(s.skip(a), p),
    decreases a,
{
    if a > 0 {
        assert(s.drop_first().skip(a - 1) == s.skip(a));
        assert forall|k: int| 0 <= k < a - 1 implies p(#[trigger] s.drop_first()[k]) by {
            assert(s.drop_first()[k] == s[k + 1]);
        }
        lemma_strip_start_skip(s.drop_first(), p, a - 1);
    } else {
        assert(s.skip(0) == s);
    }
}

pub proof fn lemma_strip_end_take(s: Seq<char>, p: spec_fn(char) -> bool, b: int)
    requires
        0 <= b <= s.len(),
        forall|k: int| b <= k < s.len() ==> p(#[trigger] s[k]),
    ensures
        strip_end_where(s, p) == strip_end_where(s.take(b), p),
    decreases s.len() - b,
{
    if b < s.len() {
        assert(s.drop_last().take(b) == s.take(b));
        assert forall|k: int| b <= k < s.len() - 1 implies p(#[trigger] s.drop_last()[k]) by {
            assert(s.drop_last()[k] == s[k]);
        }
        lemma_strip_end_take(s.drop_last(), p, b);
    } else {
        assert(s.take(b) == s);
    }
}

/// `strip_where(s, p)` is `s[a..b]` when `a` and `b` are the first and last
/// positions that do not satisfy `p`.
pub proof fn lemma_strip_bounds(s: Seq<char>, p: spec_fn(char) -> bool, a: int, b: int)
    requires
        0 <= a <= b <= s.len(),
        forall|k: int| 0 <= k < a ==> p(#[trigger] s[k]),
        a < s.len() ==> !p(s[a]),
        forall|k: int| b <= k < s.len() ==> p(#[trigger] s[k]),
        b > a ==> !p(s[b - 1]),
    ensures
        strip_where(s, p) == s.subrange(a, b),
{
    lemma_strip_start_skip(s, p, a);
    let t = s.skip(a);
    assert(strip_start_where(t, p) == t);
    assert forall|k: int| b - a <= k < t.len() implies p(#[trigger] t[k]) by {
        assert(t[k] == s[k + a]);
    }
    lemma_strip_end_take(t, p, b - a);
    assert(t.take(b - a) == s.subrange(a, b));
    let u = s.subrange(a, b);
    if u.len() > 0 {
        assert(u.last() == s[b - 1]);
    }
    assert(strip_end_where(u, p) == u);
}

} // verus!

verus! {

/// Name for the text that `String::from_utf8_lossy` decodes from bytes
/// (invalid sequences replaced by U+FFFD); it depends on the bytes alone.
pub uninterp spec fn utf8_lossy(bytes: Seq<u8>) -> Seq<char>;

/// `String::from_utf8_lossy`: the result is the named decoding of `bytes`.
#[verifier::external_body]
pub fn decode_utf8_lossy(bytes: &[u8]) -> (r: String)
    ensures
        r@ == utf8_lossy(bytes@),
{
    String::from_utf8_lossy(bytes).into_owned()
}

/// Whether `needle` occurs in `hay` as a contiguous run.
pub open spec fn contains_seq(hay: Seq<char>, needle: Seq<char>) -> bool {
    exists|i: int| 0 <= i <= hay.len() - needle.len() && #[trigger] hay.subrange(i, i + needle.len()) == needle
}

/// `str::contains` with a string pattern, on characters.
pub fn contains_chars(hay: &[char], needle: &[char]) -> (r: bool)
    ensures
        r == contains_seq(hay@, needle@),
{
    if needle.len() > hay.len() {
        return false;
    }
    let last = hay.len() - needle.len();
    let mut i: usize = 0;
    while i <= last
        invariant
            last == hay.len() - needle.len(),
            needle.len() <= hay.len(),
            i <= last + 1,
            forall|j: int| 0 <= j < i ==> #[trigger] hay@.subrange(j, j + needle.len()) != needle@,
        decreases last + 1 - i,
    {
        let mut k: usize = 0;
        let mut same = true;
        while k < needle.len() && same
            invariant
                i <= last,
                last == hay.len() - needle.len(),
                k <= needle.len(),
                same == (forall|m: int| 0 <= m < k ==> hay@[i + m] == needle@[m]),
            decreases needle.len() - k,
        {
            if hay[i + k] != needle[k] {
                same = false;
            }
            k = k + 1;
        }
        if same {
            assert(hay@.subrange(i as int, i + needle.len()) == needle@);
            return true;
        }
        assert(exists|m: int| 0 <= m < needle.len() && hay@[i + m] != needle@[m]);
        assert(hay@.subrange(i as int, i + needle.len()) != needle@) by {
            let m = choose|m: int| 0 <= m < needle.len() && hay@[i + m] != needle@[m];
            assert(hay@.subrange(i as int, i + needle.len())[m] == hay@[i + m]);
        }
        i = i + 1;
    }
    false
}

} // verus!

verus! {

// ---------------------------------------------------------------------------
// Words and joining
// ---------------------------------------------------------------------------

/// A word: at least one character, none of them white space.
pub open spec fn is_word(w: Seq<char>) -> bool {
    w.len() > 0 && forall|k: int| 0 <= k < w.len() ==> !is_ws(#[trigger] w[k])
}

proof fn lemma_append_word_chars(s: Seq<char>, w: Seq<char>)
    requires
        forall|k: int| 0 <= k < w.len() ==> !is_ws(#[trigger] w[k]),
    ensures
        pending_word(s + w) == pending_word(s) + w,
        closed_words(s + w) == closed_words(s),
    decreases w.len(),
{
    if w.len() == 0 {
        assert(s + w == s);
        assert(pending_word(s) + w == pending_word(s));
    } else {
        let w0 = w.drop_last();
        lemma_append_word_chars(s, w0);
        assert((s + w).drop_last() == s + w0);
        assert((s + w).last() == w.last());
        assert(!is_ws(w[w.len() - 1]));
        assert(pending_word(s) + w == (pending_word(s) + w0).push(w.last()));
    }
}

proof fn lemma_word_parts(s: Seq<char>)
    ensures
        forall|i: int| 0 <= i < closed_words(s).len() ==> is_word(#[trigger] closed_words(s)[i]),
        forall|k: int| 0 <= k < pending_word(s).len() ==> !is_ws(#[trigger] pending_word(s)[k]),
    decreases s.len(),
{
    if s.len() > 0 {
        let s0 = s.drop_last();
        lemma_word_parts(s0);
        let p = pending_word(s0);
        let c = closed_words(s0);
        if is_ws(s.last()) {
            assert(pending_word(s) == Seq::<char>::empty());
            if p.len() > 0 {
                assert(closed_words(s) == c.push(p));
                assert(is_word(p));
                assert forall|i: int| 0 <= i < closed_words(s).len() implies is_word(
                    #[trigger] closed_words(s)[i],
                ) by {
                    if i < c.len() {
                        assert(closed_words(s)[i] == c[i]);
                    }
                }
            } else {
                assert(closed_words(s) == c);
            }
        } else {
            assert(closed_words(s) == c);
            assert(pending_word(s) == p.push(s.last()));
            assert forall|k: int| 0 <= k < pending_word(s).len() implies !is_ws(
                #[trigger] pending_word(s)[k],
            ) by {
                if k < p.len() {
                    assert(pending_word(s)[k] == p[k]);
                }
            }
        }
    }
}

/// The words of `s` are words: non-empty and free of white space.
pub proof fn lemma_words_are_words(s: Seq<char>)
    ensures
        forall|i: int| 0 <= i < words(s).len() ==> is_word(#[trigger] words(s)[i]),
{
    lemma_word_parts(s);
    let c = closed_words(s);
    let p = pending_word(s);
    if p.len() > 0 {
        assert forall|i: int| 0 <= i < words(s).len() implies is_word(#[trigger] words(s)[i]) by {
            if i < c.len() {
                assert(words(s)[i] == c[i]);
            } else {
                assert(words(s)[i] == p);
            }
        }
    }
}

/// Splitting words joined with single spaces gives the words back.
pub proof fn lemma_words_of_join(ws: Seq<Seq<char>>)
    requires
        forall|i: int| 0 <= i < ws.len() ==> is_word(#[trigger] ws[i]),
    ensures
        words(join(ws, seq![' '])) == ws,
    decreases ws.len(),
{
    if ws.len() == 0 {
        assert(words(Seq::<char>::empty()) =~= Seq::<Seq<char>>::empty());
    } else if ws.len() == 1 {
        lemma_words_of_single(ws[0]);
        assert(ws =~= seq![ws[0]]);
    } else {
        let init = ws.drop_last();
        let w = ws.last();
        assert forall|i: int| 0 <= i < init.len() implies is_word(#[trigger] init[i]) by {
            assert(init[i] == ws[i]);
        }
        lemma_words_of_join(init);
        assert(is_word(ws[ws.len() - 1]));
        lemma_words_after_space(join(init, seq![' ']), w);
        assert(join(ws, seq![' ']) == join(init, seq![' ']).push(' ') + w);
        assert(ws =~= init.push(w));
    }
}

proof fn lemma_words_of_single(w: Seq<char>)
    requires
        is_word(w),
    ensures
        words(w) == seq![w],
{
    lemma_append_word_chars(Seq::<char>::empty(), w);
    assert(Seq::<char>::empty() + w =~= w);
    assert(pending_word(Seq::<char>::empty()) + w =~= w);
    assert(closed_words(w) =~= Seq::<Seq<char>>::empty());
}

/// A word written after a space is the next word.
pub proof fn lemma_words_after_space(a: Seq<char>, w: Seq<char>)
    requires
        is_word(w),
    ensures
        words(a.push(' ') + w) == words(a).push(w),
{
    let b = a.push(' ');
    assert(b.drop_last() =~= a);
    assert(is_ws(' '));
    assert(pending_word(b) =~= Seq::<char>::empty());
    assert(closed_words(b) == words(a));
    lemma_append_word_chars(b, w);
    assert(pending_word(b) + w =~= w);
}

} // verus!
