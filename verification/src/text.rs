//! Character-level text operations with their mathematical models.
//!
//! Every text value of the library is modelled by its sequence of Unicode
//! scalar values (`Seq<char>`), which is the view vstd gives to `str` and
//! `String`. The functions here are the small vocabulary that the rules use:
//! prefixes, suffixes, splitting, trimming, ASCII case folding and the
//! lexicographic order that `String`'s `Ord` implements.
use vstd::prelude::*;

verus! {

broadcast use vstd::string::group_string_axioms;

// ---------------------------------------------------------------------------
// Models
// ---------------------------------------------------------------------------
/// The code point of a character.
pub open spec fn code(c: char) -> int {
    c as u32 as int
}

/// `char::is_ascii_digit`.
pub open spec fn is_digit(c: char) -> bool {
    0x30 <= code(c) <= 0x39
}

/// `char::is_whitespace`: the Unicode `White_Space` property.
pub open spec fn is_ws(c: char) -> bool {
    let n = code(c);
    ||| 0x09 <= n <= 0x0D
    ||| n == 0x20
    ||| n == 0x85
    ||| n == 0xA0
    ||| n == 0x1680
    ||| 0x2000 <= n <= 0x200A
    ||| n == 0x2028
    ||| n == 0x2029
    ||| n == 0x202F
    ||| n == 0x205F
    ||| n == 0x3000
}

/// `s` begins with `p`.
pub open spec fn starts_with(s: Seq<char>, p: Seq<char>) -> bool {
    p.len() <= s.len() && s.take(p.len() as int) == p
}

/// `s` ends with `p`.
pub open spec fn ends_with(s: Seq<char>, p: Seq<char>) -> bool {
    p.len() <= s.len() && s.skip(s.len() - p.len()) == p
}

/// `str::strip_prefix`.
pub open spec fn strip_prefix(s: Seq<char>, p: Seq<char>) -> Option<Seq<char>> {
    if starts_with(s, p) {
        Some(s.skip(p.len() as int))
    } else {
        None
    }
}

/// `str::strip_suffix`.
pub open spec fn strip_suffix(s: Seq<char>, p: Seq<char>) -> Option<Seq<char>> {
    if ends_with(s, p) {
        Some(s.take(s.len() - p.len()))
    } else {
        None
    }
}

/// `s` holds `sub` at position `i`.
pub open spec fn occurs_at(s: Seq<char>, sub: Seq<char>, i: int) -> bool {
    0 <= i && i + sub.len() <= s.len() && s.subrange(i, i + sub.len()) == sub
}

/// `str::contains` for a string pattern.
pub open spec fn contains_text(s: Seq<char>, sub: Seq<char>) -> bool {
    exists|i: int| occurs_at(s, sub, i)
}

/// `s` contains the character `c`.
pub open spec fn has_char(s: Seq<char>, c: char) -> bool {
    s.contains(c)
}

/// ASCII upper-case of one character (`char::to_ascii_uppercase`).
pub open spec fn upper_char(c: char) -> char {
    if 0x61 <= code(c) <= 0x7A {
        ((code(c) - 32) as u32) as char
    } else {
        c
    }
}

/// ASCII lower-case of one character (`char::to_ascii_lowercase`).
pub open spec fn lower_char(c: char) -> char {
    if 0x41 <= code(c) <= 0x5A {
        ((code(c) + 32) as u32) as char
    } else {
        c
    }
}

/// `str::to_ascii_uppercase`.
pub open spec fn upper(s: Seq<char>) -> Seq<char> {
    s.map_values(|c: char| upper_char(c))
}

/// `str::to_ascii_lowercase`.
pub open spec fn lower(s: Seq<char>) -> Seq<char> {
    s.map_values(|c: char| lower_char(c))
}

/// `str::eq_ignore_ascii_case`.
pub open spec fn eq_ignore_case(a: Seq<char>, b: Seq<char>) -> bool {
    lower(a) == lower(b)
}

/// `str::split` on one character: the pieces between the separators, at
/// least one piece, built left to right.
pub open spec fn split(s: Seq<char>, sep: char) -> Seq<Seq<char>>
    decreases s.len(),
{
    if s.len() == 0 {
        seq![Seq::<char>::empty()]
    } else {
        let prev = split(s.drop_last(), sep);
        if s.last() == sep {
            prev.push(Seq::<char>::empty())
        } else {
            prev.update(prev.len() - 1, prev.last().push(s.last()))
        }
    }
}

/// The state of a left-to-right scan for `str::split_whitespace`: the
/// completed words and the word in progress.
pub open spec fn word_scan(s: Seq<char>) -> (Seq<Seq<char>>, Seq<char>)
    decreases s.len(),
{
    if s.len() == 0 {
        (Seq::empty(), Seq::empty())
    } else {
        let (done, cur) = word_scan(s.drop_last());
        if is_ws(s.last()) {
            if cur.len() > 0 {
                (done.push(cur), Seq::empty())
            } else {
                (done, cur)
            }
        } else {
            (done, cur.push(s.last()))
        }
    }
}

/// `str::split_whitespace`: the maximal runs of non-whitespace characters.
pub open spec fn words(s: Seq<char>) -> Seq<Seq<char>> {
    let (done, cur) = word_scan(s);
    if cur.len() > 0 {
        done.push(cur)
    } else {
        done
    }
}

/// Number of leading whitespace characters.
pub open spec fn leading_ws(s: Seq<char>) -> nat
    decreases s.len(),
{
    if s.len() > 0 && is_ws(s[0]) {
        1 + leading_ws(s.drop_first())
    } else {
        0
    }
}

/// Number of trailing whitespace characters.
pub open spec fn trailing_ws(s: Seq<char>) -> nat
    decreases s.len(),
{
    if s.len() > 0 && is_ws(s.last()) {
        1 + trailing_ws(s.drop_last())
    } else {
        0
    }
}

/// `str::trim_start`.
pub open spec fn trim_start(s: Seq<char>) -> Seq<char> {
    s.skip(leading_ws(s) as int)
}

/// `str::trim_end`.
pub open spec fn trim_end(s: Seq<char>) -> Seq<char> {
    s.take(s.len() - trailing_ws(s))
}

/// `str::trim`.
pub open spec fn trim(s: Seq<char>) -> Seq<char> {
    trim_end(trim_start(s))
}

/// Removes one trailing carriage return.
pub open spec fn strip_cr(s: Seq<char>) -> Seq<char> {
    if s.len() > 0 && s.last() == '\r' {
        s.drop_last()
    } else {
        s
    }
}

/// `str::lines`: pieces split at `\n`, a final empty piece dropped, and a
/// `\r` before each `\n` removed.
pub open spec fn lines(s: Seq<char>) -> Seq<Seq<char>> {
    let pieces = split(s, '\n');
    let n = pieces.len();
    let kept: int = if pieces.last().len() == 0 {
        n - 1
    } else {
        n as int
    };
    Seq::new(
        kept as nat,
        |i: int|
            if i < n - 1 {
                strip_cr(pieces[i])
            } else {
                pieces[i]
            },
    )
}

/// Lexicographic order on code points, which is the order of `String`'s `Ord`
/// (UTF-8 preserves code point order).
pub open spec fn lex_le(a: Seq<char>, b: Seq<char>) -> bool
    decreases a.len(),
{
    if a.len() == 0 {
        true
    } else if b.len() == 0 {
        false
    } else if code(a[0]) != code(b[0]) {
        code(a[0]) < code(b[0])
    } else {
        lex_le(a.drop_first(), b.drop_first())
    }
}

/// Strict lexicographic order.
pub open spec fn lex_lt(a: Seq<char>, b: Seq<char>) -> bool {
    lex_le(a, b) && a != b
}

/// Exactly three ASCII digits.
pub open spec fn three_digits(s: Seq<char>) -> bool {
    s.len() == 3 && is_digit(s[0]) && is_digit(s[1]) && is_digit(s[2])
}

/// `value` is `prefix`, a hyphen and three ASCII digits.
pub open spec fn is_numbered(value: Seq<char>, prefix: Seq<char>) -> bool {
    match strip_prefix(value, prefix) {
        Some(rest) => match strip_prefix(rest, seq!['-']) {
            Some(number) => three_digits(number),
            None => false,
        },
        None => false,
    }
}

/// Views of a sequence of string slices.
pub open spec fn str_views(v: Seq<&str>) -> Seq<Seq<char>> {
    v.map_values(|s: &str| s@)
}

/// Splitting gives at least one piece.
pub proof fn lemma_split_nonempty(s: Seq<char>, sep: char)
    ensures
        split(s, sep).len() > 0,
    decreases s.len(),
{
    if s.len() > 0 {
        lemma_split_nonempty(s.drop_last(), sep);
    }
}

// ---------------------------------------------------------------------------
// Lemmas on the order
// ---------------------------------------------------------------------------
/// Two code points that are equal give equal characters.
pub proof fn lemma_code_injective(a: char, b: char)
    ensures
        code(a) == code(b) ==> a == b,
{
}

/// `lex_le` is reflexive.
pub proof fn lemma_lex_refl(a: Seq<char>)
    ensures
        lex_le(a, a),
    decreases a.len(),
{
    if a.len() > 0 {
        lemma_lex_refl(a.drop_first());
    }
}

/// `lex_le` is total.
pub proof fn lemma_lex_total(a: Seq<char>, b: Seq<char>)
    ensures
        lex_le(a, b) || lex_le(b, a),
    decreases a.len(),
{
    if a.len() > 0 && b.len() > 0 && code(a[0]) == code(b[0]) {
        lemma_lex_total(a.drop_first(), b.drop_first());
    }
}

/// `lex_le` is antisymmetric.
pub proof fn lemma_lex_antisym(a: Seq<char>, b: Seq<char>)
    requires
        lex_le(a, b),
        lex_le(b, a),
    ensures
        a == b,
    decreases a.len(),
{
    if a.len() > 0 {
        lemma_lex_antisym(a.drop_first(), b.drop_first());
        lemma_code_injective(a[0], b[0]);
        assert(a =~= seq![a[0]] + a.drop_first());
        assert(b =~= seq![b[0]] + b.drop_first());
    } else {
        assert(b.len() == 0);
        assert(a =~= b);
    }
}

/// `lex_le` is transitive.
pub proof fn lemma_lex_trans(a: Seq<char>, b: Seq<char>, c: Seq<char>)
    requires
        lex_le(a, b),
        lex_le(b, c),
    ensures
        lex_le(a, c),
    decreases a.len(),
{
    if a.len() > 0 && b.len() > 0 && c.len() > 0 {
        if code(a[0]) == code(b[0]) && code(b[0]) == code(c[0]) {
            lemma_lex_trans(a.drop_first(), b.drop_first(), c.drop_first());
        }
    }
}

// ---------------------------------------------------------------------------
// Executable operations
// ---------------------------------------------------------------------------
/// Wraps `String::push`; claims what std documents: the string afterwards
/// is the old one followed by `c`.
#[verifier::external_body]
fn push_char(s: &mut String, c: char)
    ensures
        final(s)@ == old(s)@.push(c),
{
    s.push(c);
}

/// The characters of a string slice.
pub fn chars_of(s: &str) -> (res: Vec<char>)
    ensures
        res@ == s@,
{
    let mut res: Vec<char> = Vec::new();
    for c in it: s.chars()
        invariant
            it.seq() == s@,
            res@ == it.seq().take(it.index() as int),
    {
        res.push(c);
    }
    res
}

/// A string holding the given characters.
pub fn string_of(chars: &[char]) -> (res: String)
    ensures
        res@ == chars@,
{
    let mut res = String::new();
    let mut i: usize = 0;
    while i < chars.len()
        invariant
            i <= chars@.len(),
            res@ == chars@.take(i as int),
        decreases chars@.len() - i,
    {
        push_char(&mut res, chars[i]);
        i = i + 1;
        assert(chars@.take(i as int) =~= chars@.take(i - 1).push(chars@[i - 1]));
    }
    assert(chars@.take(i as int) =~= chars@);
    res
}

/// A copy of a string slice.
pub fn owned(s: &str) -> (res: String)
    ensures
        res@ == s@,
{
    s.to_owned()
}

/// `s` followed by `other`.
pub fn cat(s: String, other: &str) -> (res: String)
    ensures
        res@ == s@ + other@,
{
    let mut s = s;
    s.append(other);
    s
}

/// The concatenation of two strings.
pub fn concat(a: &str, b: &str) -> (res: String)
    ensures
        res@ == a@ + b@,
{
    let mut res = owned(a);
    res.append(b);
    res
}

/// Equality of two character sequences.
pub fn chars_eq(a: &[char], b: &[char]) -> (res: bool)
    ensures
        res == (a@ == b@),
{
    if a.len() != b.len() {
        return false;
    }
    let mut i: usize = 0;
    while i < a.len()
        invariant
            a@.len() == b@.len(),
            i <= a@.len(),
            forall|k: int| 0 <= k < i ==> a@[k] == b@[k],
        decreases a@.len() - i,
    {
        if a[i] != b[i] {
            return false;
        }
        i = i + 1;
    }
    assert(a@ =~= b@);
    true
}

/// Equality of two strings by their characters.
pub fn text_eq(a: &str, b: &str) -> (res: bool)
    ensures
        res == (a@ == b@),
{
    let ca = chars_of(a);
    let cb = chars_of(b);
    chars_eq(ca.as_slice(), cb.as_slice())
}

/// `starts_with` on characters.
pub fn chars_start_with(s: &[char], p: &[char]) -> (res: bool)
    ensures
        res == starts_with(s@, p@),
{
    if p.len() > s.len() {
        return false;
    }
    let mut i: usize = 0;
    while i < p.len()
        invariant
            p@.len() <= s@.len(),
            i <= p@.len(),
            forall|k: int| 0 <= k < i ==> s@[k] == p@[k],
        decreases p@.len() - i,
    {
        if s[i] != p[i] {
            assert(s@.take(p@.len() as int)[i as int] != p@[i as int]);
            return false;
        }
        i = i + 1;
    }
    assert(s@.take(p@.len() as int) =~= p@);
    true
}

/// `ends_with` on characters.
pub fn chars_end_with(s: &[char], p: &[char]) -> (res: bool)
    ensures
        res == ends_with(s@, p@),
{
    if p.len() > s.len() {
        return false;
    }
    let off = s.len() - p.len();
    let mut i: usize = 0;
    while i < p.len()
        invariant
            p@.len() <= s@.len(),
            off + p@.len() == s.len(),
            i <= p@.len(),
            forall|k: int| 0 <= k < i ==> s@[off + k] == p@[k],
        decreases p@.len() - i,
    {
        if s[off + i] != p[i] {
            assert(s@.skip(off as int)[i as int] != p@[i as int]);
            return false;
        }
        i = i + 1;
    }
    assert(s@.skip(off as int) =~= p@);
    true
}

/// `s` holds `sub` at position `at`.
fn chars_occur_at(s: &[char], sub: &[char], at: usize) -> (res: bool)
    requires
        at + sub@.len() <= s@.len(),
    ensures
        res == occurs_at(s@, sub@, at as int),
{
    let mut i: usize = 0;
    while i < sub.len()
        invariant
            at + sub@.len() <= s.len(),
            i <= sub@.len(),
            forall|k: int| 0 <= k < i ==> s@[at + k] == sub@[k],
        decreases sub@.len() - i,
    {
        if s[at + i] != sub[i] {
            assert(s@.subrange(at as int, at + sub@.len())[i as int] != sub@[i as int]);
            return false;
        }
        i = i + 1;
    }
    assert(s@.subrange(at as int, at + sub@.len()) =~= sub@);
    true
}

/// `contains` on characters.
pub fn chars_contain(s: &[char], sub: &[char]) -> (res: bool)
    ensures
        res == contains_text(s@, sub@),
{
    if sub.len() > s.len() {
        return false;
    }
    let last = s.len() - sub.len();
    let mut i: usize = 0;
    loop
        invariant
            sub@.len() <= s@.len(),
            last + sub@.len() == s.len(),
            i <= last,
            forall|k: int| 0 <= k < i ==> !occurs_at(s@, sub@, k),
        decreases last - i,
    {
        if chars_occur_at(s, sub, i) {
            return true;
        }
        if i == last {
            return false;
        }
        i = i + 1;
    }
}

/// `s` contains the character `c`.
pub fn chars_have(s: &[char], c: char) -> (res: bool)
    ensures
        res == has_char(s@, c),
{
    let mut i: usize = 0;
    while i < s.len()
        invariant
            i <= s@.len(),
            forall|k: int| 0 <= k < i ==> s@[k] != c,
        decreases s@.len() - i,
    {
        if s[i] == c {
            return true;
        }
        i = i + 1;
    }
    false
}

/// The characters from `from` to `to`.
pub fn sub_chars(s: &[char], from: usize, to: usize) -> (res: Vec<char>)
    requires
        from <= to <= s@.len(),
    ensures
        res@ == s@.subrange(from as int, to as int),
{
    let mut res: Vec<char> = Vec::new();
    let mut i = from;
    while i < to
        invariant
            from <= i <= to <= s@.len(),
            res@ == s@.subrange(from as int, i as int),
        decreases to - i,
    {
        res.push(s[i]);
        i = i + 1;
        assert(res@ =~= s@.subrange(from as int, i as int));
    }
    res
}

/// `strip_prefix` on characters.
pub fn chars_strip_prefix(s: &[char], p: &[char]) -> (res: Option<Vec<char>>)
    ensures
        match res {
            Some(r) => strip_prefix(s@, p@) == Some(r@),
            None => strip_prefix(s@, p@) is None,
        },
{
    if chars_start_with(s, p) {
        Some(sub_chars(s, p.len(), s.len()))
    } else {
        None
    }
}

/// `strip_suffix` on characters.
pub fn chars_strip_suffix(s: &[char], p: &[char]) -> (res: Option<Vec<char>>)
    ensures
        match res {
            Some(r) => strip_suffix(s@, p@) == Some(r@),
            None => strip_suffix(s@, p@) is None,
        },
{
    if chars_end_with(s, p) {
        Some(sub_chars(s, 0, s.len() - p.len()))
    } else {
        None
    }
}

/// `char::is_ascii_digit`.
pub fn char_is_digit(c: char) -> (res: bool)
    ensures
        res == is_digit(c),
{
    let n = c as u32;
    0x30 <= n && n <= 0x39
}

/// `char::is_whitespace`.
pub fn char_is_ws(c: char) -> (res: bool)
    ensures
        res == is_ws(c),
{
    let n = c as u32;
    (0x09 <= n && n <= 0x0D) || n == 0x20 || n == 0x85 || n == 0xA0 || n == 0x1680 || (0x2000
        <= n && n <= 0x200A) || n == 0x2028 || n == 0x2029 || n == 0x202F || n == 0x205F || n
        == 0x3000
}

/// Exactly three ASCII digits.
pub fn chars_three_digits(s: &[char]) -> (res: bool)
    ensures
        res == three_digits(s@),
{
    s.len() == 3 && char_is_digit(s[0]) && char_is_digit(s[1]) && char_is_digit(s[2])
}

/// `value` is `prefix`, a hyphen and three ASCII digits.
pub fn chars_numbered(value: &[char], prefix: &[char]) -> (res: bool)
    ensures
        res == is_numbered(value@, prefix@),
{
    match chars_strip_prefix(value, prefix) {
        Some(rest) => {
            let hyphen = vec!['-'];
            assert(hyphen@ =~= seq!['-']);
            match chars_strip_prefix(rest.as_slice(), hyphen.as_slice()) {
                Some(number) => chars_three_digits(number.as_slice()),
                None => false,
            }
        },
        None => false,
    }
}

/// `value` is `prefix`, a hyphen and three ASCII digits.
pub fn text_numbered(value: &str, prefix: &str) -> (res: bool)
    ensures
        res == is_numbered(value@, prefix@),
{
    let v = chars_of(value);
    let p = chars_of(prefix);
    chars_numbered(v.as_slice(), p.as_slice())
}

/// ASCII upper-case of one character.
pub fn char_upper(c: char) -> (res: char)
    ensures
        res == upper_char(c),
{
    let n = c as u32;
    if 0x61 <= n && n <= 0x7A {
        let m: u32 = n - 32;
        assert(m <= 0x7F);
        char_from_ascii(m)
    } else {
        c
    }
}

/// ASCII lower-case of one character.
pub fn char_lower(c: char) -> (res: char)
    ensures
        res == lower_char(c),
{
    let n = c as u32;
    if 0x41 <= n && n <= 0x5A {
        let m: u32 = n + 32;
        char_from_ascii(m)
    } else {
        c
    }
}

/// The character with an ASCII code.
fn char_from_ascii(n: u32) -> (res: char)
    requires
        n <= 0x7F,
    ensures
        res == (n as char),
        code(res) == n,
{
    let b: u8 = n as u8;
    b as char
}

/// ASCII upper-case of a character sequence.
pub fn chars_upper(s: &[char]) -> (res: Vec<char>)
    ensures
        res@ == upper(s@),
{
    let mut res: Vec<char> = Vec::new();
    let mut i: usize = 0;
    while i < s.len()
        invariant
            i <= s@.len(),
            res@ == upper(s@.take(i as int)),
        decreases s@.len() - i,
    {
        res.push(char_upper(s[i]));
        i = i + 1;
        assert(upper(s@.take(i as int)) =~= upper(s@.take(i - 1)).push(upper_char(s@[i - 1])));
    }
    assert(s@.take(i as int) =~= s@);
    res
}

/// ASCII lower-case of a character sequence.
pub fn chars_lower(s: &[char]) -> (res: Vec<char>)
    ensures
        res@ == lower(s@),
{
    let mut res: Vec<char> = Vec::new();
    let mut i: usize = 0;
    while i < s.len()
        invariant
            i <= s@.len(),
            res@ == lower(s@.take(i as int)),
        decreases s@.len() - i,
    {
        res.push(char_lower(s[i]));
        i = i + 1;
        assert(lower(s@.take(i as int)) =~= lower(s@.take(i - 1)).push(lower_char(s@[i - 1])));
    }
    assert(s@.take(i as int) =~= s@);
    res
}

/// `eq_ignore_ascii_case` on characters.
pub fn chars_eq_ignore_case(a: &[char], b: &[char]) -> (res: bool)
    ensures
        res == eq_ignore_case(a@, b@),
{
    let la = chars_lower(a);
    let lb = chars_lower(b);
    chars_eq(la.as_slice(), lb.as_slice())
}

/// `split` on one character.
pub fn chars_split(s: &[char], sep: char) -> (res: Vec<Vec<char>>)
    ensures
        res@.map_values(|p: Vec<char>| p@) == split(s@, sep),
{
    let mut done: Vec<Vec<char>> = Vec::new();
    let mut cur: Vec<char> = Vec::new();
    let mut i: usize = 0;
    while i < s.len()
        invariant
            i <= s@.len(),
            done@.map_values(|p: Vec<char>| p@).push(cur@) == split(s@.take(i as int), sep),
        decreases s@.len() - i,
    {
        let c = s[i];
        let ghost prev = split(s@.take(i as int), sep);
        assert(s@.take(i + 1).drop_last() =~= s@.take(i as int));
        if c == sep {
            let ghost old_done = done@;
            done.push(cur);
            cur = Vec::new();
            assert(done@.map_values(|p: Vec<char>| p@) =~= old_done.map_values(
                |p: Vec<char>| p@,
            ).push(done@.last()@));
        } else {
            cur.push(c);
        }
        i = i + 1;
        assert(done@.map_values(|p: Vec<char>| p@).push(cur@) =~= split(s@.take(i as int), sep));
    }
    assert(s@.take(i as int) =~= s@);
    let ghost old_done = done@;
    done.push(cur);
    assert(done@.map_values(|p: Vec<char>| p@) =~= old_done.map_values(|p: Vec<char>| p@).push(
        done@.last()@,
    ));
    done
}

/// `split_whitespace` on characters.
pub fn chars_words(s: &[char]) -> (res: Vec<Vec<char>>)
    ensures
        res@.map_values(|p: Vec<char>| p@) == words(s@),
{
    let mut done: Vec<Vec<char>> = Vec::new();
    let mut cur: Vec<char> = Vec::new();
    let mut i: usize = 0;
    while i < s.len()
        invariant
            i <= s@.len(),
            (done@.map_values(|p: Vec<char>| p@), cur@) == word_scan(s@.take(i as int)),
        decreases s@.len() - i,
    {
        let c = s[i];
        assert(s@.take(i + 1).drop_last() =~= s@.take(i as int));
        if char_is_ws(c) {
            if cur.len() > 0 {
                let ghost old_done = done@;
                done.push(cur);
                cur = Vec::new();
                assert(done@.map_values(|p: Vec<char>| p@) =~= old_done.map_values(
                    |p: Vec<char>| p@,
                ).push(done@.last()@));
            }
        } else {
            cur.push(c);
        }
        i = i + 1;
        assert(cur@ == word_scan(s@.take(i as int)).1);
    }
    assert(s@.take(i as int) =~= s@);
    if cur.len() > 0 {
        let ghost old_done = done@;
        done.push(cur);
        assert(done@.map_values(|p: Vec<char>| p@) =~= old_done.map_values(|p: Vec<char>| p@).push(
            done@.last()@,
        ));
    }
    done
}

/// `lex_le` on characters.
pub fn chars_le(a: &[char], b: &[char]) -> (res: bool)
    ensures
        res == lex_le(a@, b@),
{
    let mut i: usize = 0;
    assert(a@.skip(0) =~= a@);
    assert(b@.skip(0) =~= b@);
    while i < a.len() && i < b.len()
        invariant
            i <= a@.len(),
            i <= b@.len(),
            lex_le(a@, b@) == lex_le(a@.skip(i as int), b@.skip(i as int)),
        decreases a@.len() - i,
    {
        let ca = a[i] as u32;
        let cb = b[i] as u32;
        if ca != cb {
            return ca < cb;
        }
        assert(a@.skip(i as int).drop_first() =~= a@.skip(i + 1));
        assert(b@.skip(i as int).drop_first() =~= b@.skip(i + 1));
        i = i + 1;
    }
    i == a.len()
}

/// `lex_le` on strings.
pub fn text_le(a: &str, b: &str) -> (res: bool)
    ensures
        res == lex_le(a@, b@),
{
    let ca = chars_of(a);
    let cb = chars_of(b);
    chars_le(ca.as_slice(), cb.as_slice())
}

/// Number of leading whitespace characters.
fn chars_leading_ws(s: &[char]) -> (res: usize)
    ensures
        res == leading_ws(s@),
        res <= s@.len(),
{
    let mut i: usize = 0;
    assert(s@.skip(0) =~= s@);
    while i < s.len() && char_is_ws(s[i])
        invariant
            i <= s@.len(),
            leading_ws(s@) == i + leading_ws(s@.skip(i as int)),
        decreases s@.len() - i,
    {
        assert(s@.skip(i as int).drop_first() =~= s@.skip(i + 1));
        i = i + 1;
    }
    i
}

/// Number of trailing whitespace characters.
fn chars_trailing_ws(s: &[char]) -> (res: usize)
    ensures
        res == trailing_ws(s@),
        res <= s@.len(),
{
    let mut n: usize = 0;
    assert(s@.take(s@.len() as int) =~= s@);
    while n < s.len() && char_is_ws(s[s.len() - 1 - n])
        invariant
            n <= s@.len(),
            trailing_ws(s@) == n + trailing_ws(s@.take(s@.len() - n)),
        decreases s@.len() - n,
    {
        assert(s@.take(s@.len() - n).drop_last() =~= s@.take(s@.len() - n - 1));
        n = n + 1;
    }
    n
}

/// `trim_start` on characters.
pub fn chars_trim_start(s: &[char]) -> (res: Vec<char>)
    ensures
        res@ == trim_start(s@),
{
    let k = chars_leading_ws(s);
    sub_chars(s, k, s.len())
}

/// `trim_end` on characters.
pub fn chars_trim_end(s: &[char]) -> (res: Vec<char>)
    ensures
        res@ == trim_end(s@),
{
    let k = chars_trailing_ws(s);
    sub_chars(s, 0, s.len() - k)
}

/// `trim` on characters.
pub fn chars_trim(s: &[char]) -> (res: Vec<char>)
    ensures
        res@ == trim(s@),
{
    let t = chars_trim_start(s);
    chars_trim_end(t.as_slice())
}


/// `strip_cr` on characters.
fn chars_strip_cr(s: &[char]) -> (res: Vec<char>)
    ensures
        res@ == strip_cr(s@),
{
    if s.len() > 0 && s[s.len() - 1] == '\r' {
        let res = sub_chars(s, 0, s.len() - 1);
        assert(res@ =~= s@.drop_last());
        res
    } else {
        let res = sub_chars(s, 0, s.len());
        assert(res@ =~= s@);
        res
    }
}

/// `lines` on characters.
pub fn chars_lines(s: &[char]) -> (res: Vec<Vec<char>>)
    ensures
        res@.map_values(|p: Vec<char>| p@) == lines(s@),
{
    let pieces = chars_split(s, '\n');
    let ghost ps = split(s@, '\n');
    proof {
        lemma_split_nonempty(s@, '\n');
        assert(pieces@.map_values(|p: Vec<char>| p@).len() == pieces@.len());
        assert(pieces@[pieces@.len() - 1]@ == ps.last());
    }
    let n = pieces.len();
    let kept = if pieces[n - 1].len() == 0 {
        n - 1
    } else {
        n
    };
    let mut out: Vec<Vec<char>> = Vec::new();
    let mut i: usize = 0;
    while i < kept
        invariant
            i <= kept <= n,
            n == pieces@.len(),
            n == ps.len(),
            ps == split(s@, '\n'),
            pieces@.map_values(|p: Vec<char>| p@) == ps,
            kept == lines(s@).len(),
            out@.len() == i,
            forall|k: int| 0 <= k < i ==> (#[trigger] out@[k])@ == lines(s@)[k],
        decreases kept - i,
    {
        proof {
            assert(pieces@[i as int]@ == ps[i as int]);
        }
        let line = if i < n - 1 {
            chars_strip_cr(pieces[i].as_slice())
        } else {
            sub_chars(pieces[i].as_slice(), 0, pieces[i].len())
        };
        proof {
            if i >= n - 1 {
                assert(line@ =~= ps[i as int]);
            }
        }
        out.push(line);
        i = i + 1;
    }
    assert(out@.map_values(|p: Vec<char>| p@) =~= lines(s@));
    out
}


// ---------------------------------------------------------------------------
// Reading texts back: pieces without backticks
// ---------------------------------------------------------------------------
/// The backtick that quotes values in finding texts.
pub open spec fn tick() -> Seq<char> {
    seq!['`']
}

/// No character of `s` is a backtick.
pub open spec fn tick_free(s: Seq<char>) -> bool {
    forall|i: int| 0 <= i < s.len() ==> #[trigger] s[i] != '`'
}

/// Texts that agree after a common prefix agree.
pub proof fn lemma_cancel_prefix(p: Seq<char>, a: Seq<char>, b: Seq<char>)
    requires
        p + a == p + b,
    ensures
        a == b,
{
    assert(a =~= (p + a).skip(p.len() as int));
    assert(b =~= (p + b).skip(p.len() as int));
}

/// Texts that agree before a common suffix agree.
pub proof fn lemma_cancel_suffix(a: Seq<char>, b: Seq<char>, q: Seq<char>)
    requires
        a + q == b + q,
    ensures
        a == b,
{
    assert(a =~= (a + q).take(a.len() as int));
    assert(b =~= (b + q).take(b.len() as int));
}

/// A text made of a backtick-free piece, a backtick and a rest determines
/// the piece and the rest.
pub proof fn lemma_tick_split(a1: Seq<char>, b1: Seq<char>, a2: Seq<char>, b2: Seq<char>)
    requires
        tick_free(a1),
        tick_free(a2),
        a1 + tick() + b1 == a2 + tick() + b2,
    ensures
        a1 == a2,
        b1 == b2,
{
    let t1 = a1 + tick() + b1;
    let t2 = a2 + tick() + b2;
    if a1.len() < a2.len() {
        assert(t1[a1.len() as int] == '`');
        assert(t2[a1.len() as int] == a2[a1.len() as int]);
    } else if a2.len() < a1.len() {
        assert(t2[a2.len() as int] == '`');
        assert(t1[a2.len() as int] == a1[a2.len() as int]);
    }
    assert(a1 =~= t1.take(a1.len() as int));
    assert(a2 =~= t2.take(a2.len() as int));
    assert(b1 =~= t1.skip(a1.len() + 1int));
    assert(b2 =~= t2.skip(a2.len() + 1int));
}

/// Joining backtick-free texts gives a backtick-free text.
pub proof fn lemma_tick_free_concat(a: Seq<char>, b: Seq<char>)
    requires
        tick_free(a),
        tick_free(b),
    ensures
        tick_free(a + b),
{
    assert forall|i: int| 0 <= i < (a + b).len() implies #[trigger] (a + b)[i] != '`' by {
        if i < a.len() {
            assert((a + b)[i] == a[i]);
        } else {
            assert((a + b)[i] == b[i - a.len()]);
        }
    }
}

/// Upper-casing keeps a text free of backticks.
pub proof fn lemma_tick_free_upper(s: Seq<char>)
    requires
        tick_free(s),
    ensures
        tick_free(upper(s)),
{
    assert forall|i: int| 0 <= i < upper(s).len() implies #[trigger] upper(s)[i] != '`' by {
        let c = s[i];
        assert(upper(s)[i] == upper_char(c));
        if 0x61 <= code(c) <= 0x7A {
            assert(code(upper_char(c)) == code(c) - 32);
        }
    }
}

/// A numbered identifier over a backtick-free prefix has no backtick.
pub proof fn lemma_numbered_tick_free(v: Seq<char>, p: Seq<char>)
    requires
        is_numbered(v, p),
        tick_free(p),
    ensures
        tick_free(v),
{
    let rest = v.skip(p.len() as int);
    let number = rest.skip(1);
    assert forall|i: int| 0 <= i < v.len() implies #[trigger] v[i] != '`' by {
        if i < p.len() {
            assert(v.take(p.len() as int)[i] == v[i]);
        } else if i == p.len() {
            assert(rest.take(1)[0] == rest[0]);
            assert(rest[0] == v[i]);
        } else {
            assert(number[i - p.len() - 1] == v[i]);
            assert(is_digit(number[i - p.len() - 1]));
        }
    }
}

} // verus!
