//! Characters and strings: conversions between `str`, `String` and
//! sequences of `char`, and the small text operations the rest of the
//! library is built from.
use vstd::prelude::*;

verus! {

broadcast use vstd::string::group_string_axioms;

/// Appends one character to a `String` (std's `String::push`).
/// Trusted: the string afterwards is the old one followed by `c`.
#[verifier::external_body]
pub(crate) fn push_char(s: &mut String, c: char)
    ensures
        final(s)@ == old(s)@.push(c),
{
    s.push(c);
}

/// Whether `c` has Unicode's `White_Space` property (PropList.txt): the
/// ASCII tab, line feed, vertical tab, form feed, carriage return and
/// space, next line, no-break space, ogham space mark, the spaces from en
/// quad to hair space, line and paragraph separator, narrow no-break
/// space, medium mathematical space and ideographic space.
pub open spec fn white_space(c: char) -> bool {
    let n = c as u32;
    ||| 0x09 <= n && n <= 0x0D
    ||| n == 0x20
    ||| n == 0x85
    ||| n == 0xA0
    ||| n == 0x1680
    ||| 0x2000 <= n && n <= 0x200A
    ||| n == 0x2028
    ||| n == 0x2029
    ||| n == 0x202F
    ||| n == 0x205F
    ||| n == 0x3000
}

/// std's `char::is_whitespace`. Trusted: the answer is whether `c` has
/// the `White_Space` property, `white_space(c)`, as std documents it.
#[verifier::external_body]
pub(crate) fn is_whitespace(c: char) -> (r: bool)
    ensures
        r == white_space(c),
{
    c.is_whitespace()
}

/// The characters of a string slice, in order.
pub fn chars_of(s: &str) -> (v: Vec<char>)
    ensures
        v@ == s@,
{
    let mut v: Vec<char> = Vec::new();
    for c in it: s.chars()
        invariant
            v@ == it.seq().take(it.index()),
    {
        v.push(c);
    }
    v
}

/// The string made of the given characters, in order.
pub fn string_from_chars(v: &Vec<char>) -> (s: String)
    ensures
        s@ == v@,
{
    let mut s = String::new();
    let n = v.len();
    for i in 0..n
        invariant
            n == v.len(),
            s@ == v@.take(i as int),
    {
        push_char(&mut s, v[i]);
        assert(v@.take(i + 1) == v@.take(i as int).push(v@[i as int]));
    }
    assert(v@.take(n as int) == v@);
    s
}

/// Appends the characters of `src` to `dst`.
pub fn extend_chars(dst: &mut Vec<char>, src: &Vec<char>)
    ensures
        final(dst)@ == old(dst)@ + src@,
{
    let n = src.len();
    for i in 0..n
        invariant
            n == src.len(),
            dst@ == old(dst)@ + src@.take(i as int),
    {
        dst.push(src[i]);
        assert(src@.take(i + 1) == src@.take(i as int).push(src@[i as int]));
    }
    assert(src@.take(n as int) == src@);
}

/// The characters `s[from..to]` as a new vector.
pub fn slice_chars(s: &Vec<char>, from: usize, to: usize) -> (r: Vec<char>)
    requires
        from <= to <= s.len(),
    ensures
        r@ == s@.subrange(from as int, to as int),
{
    let mut r: Vec<char> = Vec::new();
    let mut i = from;
    while i < to
        invariant
            from <= i <= to <= s.len(),
            r@ == s@.subrange(from as int, i as int),
        decreases to - i,
    {
        r.push(s[i]);
        assert(s@.subrange(from as int, i + 1) == s@.subrange(from as int, i as int).push(
            s@[i as int],
        ));
        i = i + 1;
    }
    r
}

/// `p` is a prefix of `s`.
pub open spec fn has_prefix(s: Seq<char>, p: Seq<char>) -> bool {
    p.len() <= s.len() && s.subrange(0, p.len() as int) == p
}

/// Whether `p` is a prefix of `s`.
pub fn starts_with(s: &Vec<char>, p: &Vec<char>) -> (r: bool)
    ensures
        r == has_prefix(s@, p@),
{
    if p.len() > s.len() {
        return false;
    }
    let n = p.len();
    for i in 0..n
        invariant
            n == p.len() <= s.len(),
            forall|j: int| 0 <= j < i ==> s@[j] == p@[j],
    {
        if s[i] != p[i] {
            assert(s@.subrange(0, n as int)[i as int] != p@[i as int]);
            return false;
        }
    }
    assert(s@.subrange(0, n as int) =~= p@);
    true
}

/// Whether two character sequences are equal.
pub fn chars_equal(a: &Vec<char>, b: &Vec<char>) -> (r: bool)
    ensures
        r == (a@ == b@),
{
    if a.len() != b.len() {
        return false;
    }
    let r = starts_with(a, b);
    proof {
        if r {
            assert(a@.subrange(0, a@.len() as int) =~= a@);
        } else {
            assert(a@.subrange(0, b@.len() as int) =~= a@);
        }
    }
    r
}

/// `s` with every trailing character that satisfies `drop` removed.
pub open spec fn strip_end_by(s: Seq<char>, drop: spec_fn(char) -> bool) -> Seq<char>
    decreases s.len(),
{
    if s.len() > 0 && drop(s.last()) {
        strip_end_by(s.drop_last(), drop)
    } else {
        s
    }
}

/// `s` with every leading character that satisfies `drop` removed.
pub open spec fn strip_start_by(s: Seq<char>, drop: spec_fn(char) -> bool) -> Seq<char>
    decreases s.len(),
{
    if s.len() > 0 && drop(s[0]) {
        strip_start_by(s.drop_first(), drop)
    } else {
        s
    }
}

/// `s` without trailing whitespace: what std's `str::trim_end` gives.
pub open spec fn trim_end_spec(s: Seq<char>) -> Seq<char> {
    strip_end_by(s, |c: char| white_space(c))
}

/// `s` without leading and trailing whitespace: what std's `str::trim` gives.
pub open spec fn trim_spec(s: Seq<char>) -> Seq<char> {
    strip_start_by(trim_end_spec(s), |c: char| white_space(c))
}

/// `s` without its trailing hyphens: what `trim_end_matches("-")` gives.
pub open spec fn strip_hyphens_end(s: Seq<char>) -> Seq<char> {
    strip_end_by(s, |c: char| c == '-')
}

/// When the character at `k` is dropped, stripping the first `k + 1`
/// characters gives what stripping the first `k` gives.
proof fn lemma_strip_end_take(s: Seq<char>, drop: spec_fn(char) -> bool, k: int)
    requires
        0 <= k < s.len(),
        drop(s[k]),
    ensures
        strip_end_by(s.take(k + 1), drop) == strip_end_by(s.take(k), drop),
{
    assert(s.take(k + 1).drop_last() =~= s.take(k));
}

/// What `strip_end_by` leaves is a prefix of the text.
pub proof fn lemma_strip_end_prefix(s: Seq<char>, drop: spec_fn(char) -> bool)
    ensures
        strip_end_by(s, drop).len() <= s.len(),
        strip_end_by(s, drop) == s.take(strip_end_by(s, drop).len() as int),
    decreases s.len(),
{
    if s.len() > 0 && drop(s.last()) {
        lemma_strip_end_prefix(s.drop_last(), drop);
        let k = strip_end_by(s, drop).len() as int;
        assert(s.drop_last().take(k) =~= s.take(k));
    } else {
        assert(s.take(s.len() as int) =~= s);
    }
}

proof fn lemma_strip_start_skip(s: Seq<char>, drop: spec_fn(char) -> bool, k: int)
    requires
        0 <= k < s.len(),
        drop(s[k]),
    ensures
        strip_start_by(s.skip(k), drop) == strip_start_by(s.skip(k + 1), drop),
{
    assert(s.skip(k).drop_first() =~= s.skip(k + 1));
}

/// `s` without trailing whitespace (std's `str::trim_end`).
pub fn trim_end(s: &Vec<char>) -> (r: Vec<char>)
    ensures
        r@ == trim_end_spec(s@),
{
    let ghost ws = |c: char| white_space(c);
    let mut e = s.len();
    assert(s@.take(s@.len() as int) =~= s@);
    while e > 0 && is_whitespace(s[e - 1])
        invariant
            e <= s.len(),
            forall|c: char| #[trigger] ws(c) == white_space(c),
            strip_end_by(s@, ws) == strip_end_by(s@.take(e as int), ws),
        decreases e,
    {
        proof {
            lemma_strip_end_take(s@, ws, e - 1);
        }
        e = e - 1;
    }
    proof {
        assert(s@.take(s@.len() as int) =~= s@);
        if e > 0 {
            assert(!ws(s@.take(e as int).last()));
        }
    }
    assert(s@.subrange(0, e as int) =~= s@.take(e as int));
    slice_chars(s, 0, e)
}

/// `s` without leading and trailing whitespace (std's `str::trim`).
pub fn trim(s: &Vec<char>) -> (r: Vec<char>)
    ensures
        r@ == trim_spec(s@),
{
    let ghost ws = |c: char| white_space(c);
    let t = trim_end(s);
    let mut b: usize = 0;
    assert(t@.skip(0) =~= t@);
    while b < t.len() && is_whitespace(t[b])
        invariant
            b <= t.len(),
            forall|c: char| #[trigger] ws(c) == white_space(c),
            strip_start_by(t@, ws) == strip_start_by(t@.skip(b as int), ws),
        decreases t.len() - b,
    {
        proof {
            lemma_strip_start_skip(t@, ws, b as int);
        }
        b = b + 1;
    }
    proof {
        assert(t@.skip(0) =~= t@);
        if b < t.len() {
            assert(t@.skip(b as int)[0] == t@[b as int]);
        }
    }
    assert(t@.subrange(b as int, t@.len() as int) =~= t@.skip(b as int));
    slice_chars(&t, b, t.len())
}

/// `s` without its trailing hyphens (`trim_end_matches("-")`).
pub fn strip_trailing_hyphens(s: &Vec<char>) -> (r: Vec<char>)
    ensures
        r@ == strip_hyphens_end(s@),
{
    let ghost hy = |c: char| c == '-';
    let mut e = s.len();
    assert(s@.take(s@.len() as int) =~= s@);
    while e > 0 && s[e - 1] == '-'
        invariant
            e <= s.len(),
            forall|c: char| #[trigger] hy(c) == (c == '-'),
            strip_end_by(s@, hy) == strip_end_by(s@.take(e as int), hy),
        decreases e,
    {
        proof {
            lemma_strip_end_take(s@, hy, e - 1);
        }
        e = e - 1;
    }
    proof {
        assert(s@.take(s@.len() as int) =~= s@);
        if e > 0 {
            assert(!hy(s@.take(e as int).last()));
        }
    }
    assert(s@.subrange(0, e as int) =~= s@.take(e as int));
    slice_chars(s, 0, e)
}

/// The pieces of `s` between occurrences of `sep`: what std's `str::split`
/// with a one-character pattern yields. An empty `s` gives one empty piece.
pub open spec fn split_spec(s: Seq<char>, sep: char) -> Seq<Seq<char>>
    decreases s.len(),
{
    if s.len() == 0 {
        seq![Seq::<char>::empty()]
    } else {
        let pieces = split_spec(s.drop_last(), sep);
        if s.last() == sep {
            pieces.push(Seq::<char>::empty())
        } else {
            pieces.update(pieces.len() - 1, pieces.last().push(s.last()))
        }
    }
}

/// `split_spec` always yields at least one piece.
pub proof fn lemma_split_nonempty(s: Seq<char>, sep: char)
    ensures
        split_spec(s, sep).len() >= 1,
    decreases s.len(),
{
    if s.len() > 0 {
        lemma_split_nonempty(s.drop_last(), sep);
    }
}

/// The character sequences held by a vector of character vectors.
pub open spec fn pieces_view(v: Seq<Vec<char>>) -> Seq<Seq<char>> {
    v.map_values(|x: Vec<char>| x@)
}

/// The pieces of `s` between occurrences of `sep` (std's `str::split`).
pub fn split_chars(s: &Vec<char>, sep: char) -> (r: Vec<Vec<char>>)
    ensures
        pieces_view(r@) == split_spec(s@, sep),
{
    let mut r: Vec<Vec<char>> = Vec::new();
    r.push(Vec::new());
    let mut cur: usize = 0;
    let n = s.len();
    assert(s@.take(0) =~= Seq::<char>::empty());
    assert(pieces_view(r@) =~= split_spec(s@.take(0), sep));
    for i in 0..n
        invariant
            n == s.len(),
            r.len() >= 1,
            cur == r.len() - 1,
            pieces_view(r@) == split_spec(s@.take(i as int), sep),
    {
        let ghost before = pieces_view(r@);
        proof {
            assert(s@.take(i + 1).drop_last() =~= s@.take(i as int));
            assert(s@.take(i + 1).last() == s@[i as int]);
        }
        if s[i] == sep {
            r.push(Vec::new());
            cur = cur + 1;
            assert(pieces_view(r@) =~= before.push(Seq::<char>::empty()));
        } else {
            let mut last = r.pop().unwrap();
            last.push(s[i]);
            r.push(last);
            assert(pieces_view(r@) =~= before.update(before.len() - 1, before.last().push(s@[i as int])));
        }
    }
    assert(s@.take(n as int) =~= s@);
    r
}

/// Whether `c` is an ASCII letter or digit: the class `[[:alnum:]]`.
pub open spec fn is_ascii_alnum(c: char) -> bool {
    ('0' <= c && c <= '9') || ('a' <= c && c <= 'z') || ('A' <= c && c <= 'Z')
}

/// Whether `c` is an ASCII character.
pub open spec fn is_ascii_char(c: char) -> bool {
    (c as u32) < 128
}

/// `c` with an ASCII capital replaced by its small letter.
pub open spec fn ascii_lower_char(c: char) -> char {
    if 'A' <= c && c <= 'Z' {
        ((c as u32) + 32) as char
    } else {
        c
    }
}

/// The decimal digit character for `d < 10`.
pub open spec fn digit_char(d: nat) -> char {
    ((d + 48) as u8) as char
}

/// The decimal representation of `n`, without sign or leading zeros.
pub open spec fn decimal(n: nat) -> Seq<char>
    decreases n,
{
    if n < 10 {
        seq![digit_char(n)]
    } else {
        decimal(n / 10).push(digit_char(n % 10))
    }
}

/// The decimal representation of `n` (what `format!("{}", n)` writes).
pub fn decimal_chars(n: u32) -> (r: Vec<char>)
    ensures
        r@ == decimal(n as nat),
    decreases n,
{
    let d = (n % 10) as u8;
    let c = (d + 48u8) as char;
    if n < 10 {
        vec![c]
    } else {
        let mut r = decimal_chars(n / 10);
        r.push(c);
        r
    }
}


/// A decimal representation has at least one digit.
pub proof fn lemma_decimal_len(n: nat)
    ensures
        decimal(n).len() >= 1,
    decreases n,
{
    if n >= 10 {
        lemma_decimal_len(n / 10);
    }
}

/// Law: different numbers have different decimal representations.
pub proof fn lemma_decimal_injective(a: nat, b: nat)
    requires
        decimal(a) == decimal(b),
    ensures
        a == b,
    decreases a + b,
{
    if a < 10 && b < 10 {
        assert(decimal(a)[0] == digit_char(a));
        assert(decimal(b)[0] == digit_char(b));
        assert((digit_char(a) as u32) == a + 48);
        assert((digit_char(b) as u32) == b + 48);
    } else if a < 10 {
        lemma_decimal_len(b / 10);
        assert(decimal(b).len() >= 2);
    } else if b < 10 {
        lemma_decimal_len(a / 10);
        assert(decimal(a).len() >= 2);
    } else {
        assert(decimal(a).drop_last() =~= decimal(a / 10));
        assert(decimal(b).drop_last() =~= decimal(b / 10));
        lemma_decimal_injective(a / 10, b / 10);
        assert(decimal(a).last() == digit_char(a % 10));
        assert(decimal(b).last() == digit_char(b % 10));
        assert((digit_char(a % 10) as u32) == a % 10 + 48);
        assert((digit_char(b % 10) as u32) == b % 10 + 48);
    }
}

} // verus!
