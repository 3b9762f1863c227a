//! Slugs: the URL-friendly names of posts and tags, and the normalised
//! title typed in for a new post.
use vstd::prelude::*;
use crate::text::{
    ascii_lower_char, chars_of, is_ascii_alnum, strip_end_by, extend_chars, is_ascii_char, string_from_chars, strip_hyphens_end,
    strip_trailing_hyphens, trim_end, trim_end_spec, lemma_strip_end_prefix, white_space,
};

verus! {

broadcast use vstd::string::group_string_axioms;

/// The pattern whose matches make up a slug: runs of ASCII letters and digits.
pub const SLUG_WORD_PATTERN: &'static str = "[[:alnum:]]+";

/// Whether the regex crate accepts `pattern` (`regex::Regex::new` gives `Ok`).
pub uninterp spec fn regex_compiles(pattern: Seq<char>) -> bool;

/// The texts of the successive non-overlapping matches of `pattern` in
/// `text`, in order, as `regex::Regex::find_iter` yields them.
pub uninterp spec fn regex_find(pattern: Seq<char>, text: Seq<char>) -> Seq<Seq<char>>;

/// The sequences of characters held by a vector of strings.
pub open spec fn strings_view(v: Seq<String>) -> Seq<Seq<char>> {
    v.map_values(|s: String| s@)
}

/// The maximal runs of ASCII letters and digits in `s`, left to right.
pub open spec fn alnum_runs(s: Seq<char>) -> Seq<Seq<char>>
    decreases s.len(),
{
    if s.len() == 0 {
        Seq::<Seq<char>>::empty()
    } else {
        let r = alnum_runs(s.drop_last());
        let c = s.last();
        if !is_ascii_alnum(c) {
            r
        } else if s.len() >= 2 && is_ascii_alnum(s[s.len() - 2]) {
            r.update(r.len() - 1, r.last().push(c))
        } else {
            r.push(seq![c])
        }
    }
}

/// The search succeeded and found exactly the maximal runs of ASCII
/// letters and digits in `text`.
pub open spec fn finds_alnum_runs(r: Option<Vec<String>>, text: Seq<char>) -> bool {
    r matches Some(v) && strings_view(v@) == alnum_runs(text)
}

/// `regex::Regex::new` followed by `regex::Regex::find_iter`. Trusted:
/// the result is `None` exactly when the pattern does not compile, and
/// otherwise the texts of the matches, `regex_find(pattern, text)`. For the
/// slug pattern `[[:alnum:]]+` the regex documentation gives both facts:
/// the pattern compiles, and as `[[:alnum:]]` is `[0-9A-Za-z]` and `+` is
/// greedy, its successive leftmost matches are the maximal runs of ASCII
/// letters and digits.
#[verifier::external_body]
fn regex_find_all(pattern: &str, text: &str) -> (r: Option<Vec<String>>)
    ensures
        r is Some <==> regex_compiles(pattern@),
        r matches Some(v) ==> strings_view(v@) == regex_find(pattern@, text@),
        pattern@ == SLUG_WORD_PATTERN@ ==> finds_alnum_runs(r, text@),
{
    match regex::Regex::new(pattern) {
        Ok(re) => Some(re.find_iter(text).map(|m| m.as_str().to_string()).collect()),
        Err(_) => None,
    }
}

/// The lowercase form of `s` by Unicode's case mapping, as std's
/// `str::to_lowercase` computes it.
pub uninterp spec fn lowercase(s: Seq<char>) -> Seq<char>;

/// `s` with every ASCII capital replaced by its small letter.
pub open spec fn ascii_lowercase(s: Seq<char>) -> Seq<char> {
    s.map_values(|c: char| ascii_lower_char(c))
}

/// Every character of `s` is ASCII.
pub open spec fn all_ascii(s: Seq<char>) -> bool {
    forall|i: int| 0 <= i < s.len() ==> is_ascii_char(#[trigger] s[i])
}

/// std's `str::to_lowercase`. Trusted: the result is `lowercase(s)`; on
/// text made only of ASCII characters, Unicode's lowercase mapping is the
/// ASCII one (capitals become small letters, all else stays). Beyond ASCII
/// nothing is stated.
#[verifier::external_body]
pub(crate) fn to_lowercase(s: &str) -> (r: String)
    ensures
        r@ == lowercase(s@),
        all_ascii(s@) ==> r@ == ascii_lowercase(s@),
{
    s.to_lowercase()
}

/// Each word followed by a hyphen, all concatenated: what pushing every
/// match and then `"-"` onto an empty string gives.
pub open spec fn hyphen_after_each(words: Seq<Seq<char>>) -> Seq<char>
    decreases words.len(),
{
    if words.len() == 0 {
        Seq::<char>::empty()
    } else {
        hyphen_after_each(words.drop_last()) + words.last() + seq!['-']
    }
}

/// The slug made of the given words: joined with hyphens, trailing hyphens
/// removed, lowercased.
pub open spec fn slug_of_words(words: Seq<Seq<char>>) -> Seq<char> {
    lowercase(strip_hyphens_end(hyphen_after_each(words)))
}

/// The slug of `input`: its maximal runs of ASCII letters and digits,
/// lowercased, joined by single hyphens.
pub open spec fn slug_spec(input: Seq<char>) -> Seq<char> {
    ascii_lowercase(join_hyphens(alnum_runs(input)))
}

/// The words joined with single hyphens between them.
pub open spec fn join_hyphens(words: Seq<Seq<char>>) -> Seq<char>
    decreases words.len(),
{
    if words.len() == 0 {
        Seq::<char>::empty()
    } else if words.len() == 1 {
        words[0]
    } else {
        join_hyphens(words.drop_last()) + seq!['-'] + words.last()
    }
}

/// A word as the slug pattern matches it: a non-empty run of ASCII letters
/// and digits.
pub open spec fn is_alnum_word(w: Seq<char>) -> bool {
    w.len() > 0 && forall|i: int| 0 <= i < w.len() ==> is_ascii_alnum(#[trigger] w[i])
}

/// Every word is a non-empty run of ASCII letters and digits.
pub open spec fn all_alnum_words(words: Seq<Seq<char>>) -> bool {
    forall|i: int| 0 <= i < words.len() ==> is_alnum_word(#[trigger] words[i])
}

/// A character that may stand in a slug made of alphanumeric words.
pub open spec fn is_slug_char(c: char) -> bool {
    ('0' <= c && c <= '9') || ('a' <= c && c <= 'z') || c == '-'
}

proof fn lemma_join_hyphens_facts(words: Seq<Seq<char>>)
    requires
        all_alnum_words(words),
    ensures
        hyphen_after_each(words) == (if words.len() == 0 {
            Seq::<char>::empty()
        } else {
            join_hyphens(words) + seq!['-']
        }),
        forall|i: int|
            0 <= i < join_hyphens(words).len() ==> is_ascii_alnum(#[trigger] join_hyphens(words)[i])
                || join_hyphens(words)[i] == '-',
        words.len() > 0 ==> join_hyphens(words).len() > 0 && is_ascii_alnum(join_hyphens(words)[0])
            && is_ascii_alnum(join_hyphens(words).last()),
        forall|i: int|
            0 <= i < join_hyphens(words).len() - 1 && #[trigger] join_hyphens(words)[i] == '-'
                ==> join_hyphens(words)[i + 1] != '-',
    decreases words.len(),
{
    if words.len() == 0 {
    } else if words.len() == 1 {
        assert(words.drop_last() =~= Seq::<Seq<char>>::empty());
        assert(hyphen_after_each(words.drop_last()) =~= Seq::<char>::empty());
        assert(Seq::<char>::empty() + words.last() =~= words[0]);
        assert(is_alnum_word(words[0]));
    } else {
        let init = words.drop_last();
        assert forall|i: int| 0 <= i < init.len() implies is_alnum_word(#[trigger] init[i]) by {
            assert(init[i] == words[i]);
        }
        lemma_join_hyphens_facts(init);
        let w = words.last();
        assert(is_alnum_word(words[words.len() - 1]));
        let j = join_hyphens(init);
        assert(hyphen_after_each(init) + w =~= j + seq!['-'] + w);
        let jw = j + seq!['-'] + w;
        assert forall|i: int| 0 <= i < jw.len() implies is_ascii_alnum(#[trigger] jw[i]) || jw[i]
            == '-' by {
            if i < j.len() {
                assert(jw[i] == j[i]);
            } else if i == j.len() {
            } else {
                assert(jw[i] == w[i - j.len() - 1]);
            }
        }
        assert(jw[0] == j[0]);
        assert(jw.last() == w.last());
        assert forall|i: int| 0 <= i < jw.len() - 1 && #[trigger] jw[i] == '-' implies jw[i + 1] != '-' by {
            if i < j.len() - 1 {
                assert(jw[i] == j[i]);
                assert(jw[i + 1] == j[i + 1]);
            } else if i == j.len() - 1 {
                assert(jw[i] == j.last());
            } else if i == j.len() {
                assert(jw[i + 1] == w[0]);
            } else {
                assert(jw[i] == w[i - j.len() - 1]);
            }
        }
    }
}

/// The slug of non-empty ASCII alphanumeric words holds only small
/// letters, digits and single hyphens, and neither starts nor ends with a
/// hyphen.
proof fn lemma_words_slug_shape(words: Seq<Seq<char>>)
    requires
        all_alnum_words(words),
    ensures
        ({
            let s = ascii_lowercase(join_hyphens(words));
            &&& forall|i: int| 0 <= i < s.len() ==> is_slug_char(#[trigger] s[i])
            &&& s.len() > 0 ==> s[0] != '-' && s.last() != '-'
            &&& forall|i: int| 0 <= i < s.len() - 1 && #[trigger] s[i] == '-' ==> s[i + 1] != '-'
            &&& (s.len() == 0 <==> words.len() == 0)
        }),
{
    lemma_join_hyphens_facts(words);
    let j = join_hyphens(words);
    let s = ascii_lowercase(j);
    assert forall|i: int| 0 <= i < s.len() implies is_slug_char(#[trigger] s[i]) by {
        assert(s[i] == ascii_lower_char(j[i]));
        assert(is_ascii_alnum(j[i]) || j[i] == '-');
    }
    if s.len() > 0 {
        assert(s[0] == ascii_lower_char(j[0]));
        assert(s.last() == ascii_lower_char(j.last()));
    }
    assert forall|i: int| 0 <= i < s.len() - 1 && #[trigger] s[i] == '-' implies s[i + 1] != '-' by {
        assert(s[i] == ascii_lower_char(j[i]));
        assert(s[i + 1] == ascii_lower_char(j[i + 1]));
        assert(is_ascii_alnum(j[i]) || j[i] == '-');
        assert(is_ascii_alnum(j[i + 1]) || j[i + 1] == '-');
    }
}

/// Trailing hyphens stripped from alphanumeric words each followed by a
/// hyphen leave the words joined by single hyphens.
proof fn lemma_strip_joined(words: Seq<Seq<char>>)
    requires
        all_alnum_words(words),
    ensures
        strip_hyphens_end(hyphen_after_each(words)) == join_hyphens(words),
        all_ascii(join_hyphens(words)),
{
    lemma_join_hyphens_facts(words);
    let j = join_hyphens(words);
    let hy = |c: char| c == '-';
    if words.len() > 0 {
        assert((j + seq!['-']).drop_last() =~= j);
        assert(strip_end_by(j + seq!['-'], hy) == strip_end_by(j, hy));
        assert(strip_end_by(j, hy) == j);
    } else {
        assert(strip_end_by(Seq::<char>::empty(), hy) == Seq::<char>::empty());
    }
    assert forall|i: int| 0 <= i < j.len() implies is_ascii_char(#[trigger] j[i]) by {
        assert(is_ascii_alnum(j[i]) || j[i] == '-');
    }
}

/// Builds a slug from the words a slug is made of: each word followed by
/// a hyphen, trailing hyphens stripped, the whole lowercased. For
/// non-empty ASCII alphanumeric words this is the words lowercased and
/// joined by single hyphens.
pub fn slug_from_words(words: &Vec<String>) -> (r: String)
    ensures
        r@ == slug_of_words(strings_view(words@)),
        all_alnum_words(strings_view(words@)) ==> r@ == ascii_lowercase(
            join_hyphens(strings_view(words@)),
        ),
{
    let mut joined: Vec<char> = Vec::new();
    let n = words.len();
    for i in 0..n
        invariant
            n == words.len(),
            joined@ == hyphen_after_each(strings_view(words@).take(i as int)),
    {
        let w = chars_of(words[i].as_str());
        extend_chars(&mut joined, &w);
        joined.push('-');
        proof {
            let ws = strings_view(words@);
            assert(ws.take(i + 1).drop_last() =~= ws.take(i as int));
            assert(ws.take(i + 1).last() == words@[i as int]@);
        }
    }
    assert(strings_view(words@).take(n as int) =~= strings_view(words@));
    let stripped = strip_trailing_hyphens(&joined);
    proof {
        if all_alnum_words(strings_view(words@)) {
            lemma_strip_joined(strings_view(words@));
        }
    }
    let s = string_from_chars(&stripped);
    to_lowercase(s.as_str())
}

/// The slug of `input`: its maximal runs of ASCII letters and digits,
/// lowercased, joined by single hyphens.
pub fn create_slug(input: String) -> (r: String)
    ensures
        r@ == slug_spec(input@),
{
    let words = regex_find_all(SLUG_WORD_PATTERN, input.as_str()).unwrap();
    proof {
        lemma_runs_are_words(input@);
    }
    slug_from_words(&words)
}

/// A title as typed in: trailing whitespace (the line break among it)
/// removed, then lowercased.
pub open spec fn normalized_input(line: Seq<char>) -> Seq<char> {
    lowercase(trim_end_spec(line))
}

/// Normalises a line typed in as a post title: trailing whitespace
/// removed, then lowercased; on ASCII text, capitals become small letters.
pub fn normalize_input(line: &str) -> (r: String)
    ensures
        r@ == normalized_input(line@),
        all_ascii(line@) ==> r@ == ascii_lowercase(trim_end_spec(line@)),
{
    let chars = chars_of(line);
    let trimmed = trim_end(&chars);
    proof {
        let t = trim_end_spec(line@);
        lemma_strip_end_prefix(line@, |c: char| white_space(c));
        if all_ascii(line@) {
            assert forall|i: int| 0 <= i < t.len() implies is_ascii_char(#[trigger] t[i]) by {
                assert(t[i] == line@[i]);
            }
        }
    }
    let s = string_from_chars(&trimmed);
    to_lowercase(s.as_str())
}

/// The path of the file a new post with slug `slug` is written to.
pub open spec fn new_post_path_spec(slug: Seq<char>) -> Seq<char> {
    "./posts/"@ + slug + ".md"@
}

/// The path of the file a new post with slug `slug` is written to:
/// `./posts/{slug}.md`.
pub fn new_post_path(slug: &str) -> (r: String)
    ensures
        r@ == new_post_path_spec(slug@),
{
    let mut r = chars_of("./posts/");
    let s = chars_of(slug);
    extend_chars(&mut r, &s);
    let tail = chars_of(".md");
    extend_chars(&mut r, &tail);
    string_from_chars(&r)
}

// ---------------------------------------------------------------------
// Laws of slugs
// ---------------------------------------------------------------------

/// Some character of `s` is an ASCII letter or digit.
pub open spec fn has_alnum(s: Seq<char>) -> bool {
    exists|i: int| 0 <= i < s.len() && is_ascii_alnum(#[trigger] s[i])
}

proof fn lemma_runs_are_words(s: Seq<char>)
    ensures
        all_alnum_words(alnum_runs(s)),
        alnum_runs(s).len() == 0 <==> !has_alnum(s),
        s.len() > 0 && is_ascii_alnum(s.last()) ==> alnum_runs(s).len() > 0,
    decreases s.len(),
{
    if s.len() > 0 {
        let d = s.drop_last();
        lemma_runs_are_words(d);
        let r = alnum_runs(d);
        let c = s.last();
        let rs = alnum_runs(s);
        if has_alnum(d) {
            let i = choose|i: int| 0 <= i < d.len() && is_ascii_alnum(#[trigger] d[i]);
            assert(s[i] == d[i]);
        }
        if has_alnum(s) && !is_ascii_alnum(c) {
            let i = choose|i: int| 0 <= i < s.len() && is_ascii_alnum(#[trigger] s[i]);
            assert(d[i] == s[i]);
        }
        if !is_ascii_alnum(c) {
        } else if s.len() >= 2 && is_ascii_alnum(s[s.len() - 2]) {
            assert(d.last() == s[s.len() - 2]);
            assert(is_alnum_word(r[r.len() - 1]));
            assert forall|i: int| 0 <= i < rs.len() implies is_alnum_word(#[trigger] rs[i]) by {
                if i < r.len() - 1 {
                    assert(rs[i] == r[i]);
                } else {
                    let w = r.last().push(c);
                    assert(rs[i] == w);
                    assert forall|k: int| 0 <= k < w.len() implies is_ascii_alnum(#[trigger] w[k]) by {
                        if k < w.len() - 1 {
                            assert(w[k] == r.last()[k]);
                        }
                    }
                }
            }
            assert(s[s.len() - 1] == c);
        } else {
            assert forall|i: int| 0 <= i < rs.len() implies is_alnum_word(#[trigger] rs[i]) by {
                if i < r.len() {
                    assert(rs[i] == r[i]);
                } else {
                    assert(rs[i] == seq![c]);
                }
            }
            assert(s[s.len() - 1] == c);
        }
    }
}

proof fn lemma_runs_of_word(w: Seq<char>)
    requires
        is_alnum_word(w),
    ensures
        alnum_runs(w) == seq![w],
    decreases w.len(),
{
    let d = w.drop_last();
    assert(is_ascii_alnum(w[w.len() - 1]));
    if w.len() == 1 {
        assert(d =~= Seq::<char>::empty());
        assert(alnum_runs(d) =~= Seq::<Seq<char>>::empty());
        assert(seq![w.last()] =~= w);
    } else {
        assert forall|k: int| 0 <= k < d.len() implies is_ascii_alnum(#[trigger] d[k]) by {
            assert(d[k] == w[k]);
        }
        lemma_runs_of_word(d);
        assert(w[w.len() - 2] == d.last());
        assert(is_ascii_alnum(w[w.len() - 1]));
        assert(d.push(w.last()) =~= w);
        assert(seq![d].update(0, d.push(w.last())) =~= seq![w]);
    }
}

proof fn lemma_runs_split(a: Seq<char>, c: char, b: Seq<char>)
    requires
        !is_ascii_alnum(c),
    ensures
        alnum_runs(a + seq![c] + b) == alnum_runs(a) + alnum_runs(b),
    decreases b.len(),
{
    let s = a + seq![c] + b;
    if b.len() == 0 {
        assert(s.drop_last() =~= a);
        assert(alnum_runs(a) + alnum_runs(b) =~= alnum_runs(a));
    } else {
        let bd = b.drop_last();
        lemma_runs_split(a, c, bd);
        assert(s.drop_last() =~= a + seq![c] + bd);
        let x = b.last();
        assert(s.last() == x);
        let ra = alnum_runs(a);
        let rb = alnum_runs(bd);
        if !is_ascii_alnum(x) {
        } else if b.len() >= 2 && is_ascii_alnum(b[b.len() - 2]) {
            assert(s[s.len() - 2] == b[b.len() - 2]);
            assert(bd.last() == b[b.len() - 2]);
            lemma_runs_are_words(bd);
            assert((ra + rb).update((ra + rb).len() - 1, (ra + rb).last().push(x)) =~= ra + rb.update(
                rb.len() - 1,
                rb.last().push(x),
            ));
        } else {
            if b.len() >= 2 {
                assert(s[s.len() - 2] == b[b.len() - 2]);
            } else {
                assert(s[s.len() - 2] == c);
            }
            assert((ra + rb).push(seq![x]) =~= ra + rb.push(seq![x]));
        }
    }
}

proof fn lemma_runs_of_join(ws: Seq<Seq<char>>)
    requires
        all_alnum_words(ws),
    ensures
        alnum_runs(join_hyphens(ws)) == ws,
    decreases ws.len(),
{
    if ws.len() == 0 {
        assert(alnum_runs(Seq::<char>::empty()) =~= ws);
    } else if ws.len() == 1 {
        assert(is_alnum_word(ws[0]));
        lemma_runs_of_word(ws[0]);
        assert(seq![ws[0]] =~= ws);
    } else {
        let d = ws.drop_last();
        assert forall|i: int| 0 <= i < d.len() implies is_alnum_word(#[trigger] d[i]) by {
            assert(d[i] == ws[i]);
        }
        lemma_runs_of_join(d);
        assert(is_alnum_word(ws[ws.len() - 1]));
        lemma_runs_of_word(ws.last());
        lemma_runs_split(join_hyphens(d), '-', ws.last());
        assert(d + seq![ws.last()] =~= ws);
    }
}

/// Each word lowercased.
pub open spec fn lower_words(ws: Seq<Seq<char>>) -> Seq<Seq<char>> {
    ws.map_values(|w: Seq<char>| ascii_lowercase(w))
}

proof fn lemma_lower_char_facts(c: char)
    ensures
        ascii_lower_char(ascii_lower_char(c)) == ascii_lower_char(c),
        is_ascii_alnum(c) ==> is_ascii_alnum(ascii_lower_char(c)),
        ascii_lower_char(c) == '-' <==> c == '-',
{
    if 'A' <= c && c <= 'Z' {
        let l = ascii_lower_char(c);
        assert(l as u32 == (c as u32) + 32);
        assert('a' <= l && l <= 'z');
    }
}

proof fn lemma_lower_join(ws: Seq<Seq<char>>)
    ensures
        ascii_lowercase(join_hyphens(ws)) == join_hyphens(lower_words(ws)),
        all_alnum_words(ws) ==> all_alnum_words(lower_words(ws)),
    decreases ws.len(),
{
    let lw = lower_words(ws);
    if all_alnum_words(ws) {
        assert forall|i: int| 0 <= i < lw.len() implies is_alnum_word(#[trigger] lw[i]) by {
            assert(is_alnum_word(ws[i]));
            assert forall|k: int| 0 <= k < lw[i].len() implies is_ascii_alnum(#[trigger] lw[i][k]) by {
                lemma_lower_char_facts(ws[i][k]);
            }
        }
    }
    if ws.len() == 0 {
        assert(ascii_lowercase(Seq::<char>::empty()) =~= Seq::<char>::empty());
    } else if ws.len() == 1 {
    } else {
        let d = ws.drop_last();
        lemma_lower_join(d);
        assert(lower_words(d) =~= lw.drop_last());
        let j = join_hyphens(d);
        lemma_lower_char_facts('-');
        assert(ascii_lowercase(j + seq!['-'] + ws.last()) =~= ascii_lowercase(j) + seq!['-']
            + ascii_lowercase(ws.last()));
    }
}

proof fn lemma_lower_twice(s: Seq<char>)
    ensures
        ascii_lowercase(ascii_lowercase(s)) == ascii_lowercase(s),
{
    assert forall|i: int| 0 <= i < s.len() implies #[trigger] ascii_lowercase(ascii_lowercase(s))[i]
        == ascii_lowercase(s)[i] by {
        lemma_lower_char_facts(s[i]);
    }
    assert(ascii_lowercase(ascii_lowercase(s)) =~= ascii_lowercase(s));
}

proof fn lemma_join_concat(x: Seq<Seq<char>>, y: Seq<Seq<char>>)
    requires
        x.len() > 0,
        y.len() > 0,
    ensures
        join_hyphens(x + y) == join_hyphens(x) + seq!['-'] + join_hyphens(y),
    decreases y.len(),
{
    if y.len() == 1 {
        assert((x + y).drop_last() =~= x);
        assert(join_hyphens(y) == y[0]);
    } else {
        let yd = y.drop_last();
        lemma_join_concat(x, yd);
        assert((x + y).drop_last() =~= x + yd);
        assert(join_hyphens(x) + seq!['-'] + join_hyphens(yd) + seq!['-'] + y.last() =~= join_hyphens(x)
            + seq!['-'] + (join_hyphens(yd) + seq!['-'] + y.last()));
    }
}

/// Law: a slug holds only small ASCII letters, digits and single hyphens,
/// neither starts nor ends with a hyphen, and is empty exactly when the
/// text has no ASCII letter or digit.
pub proof fn lemma_slug_shape(input: Seq<char>)
    ensures
        ({
            let s = slug_spec(input);
            &&& forall|i: int| 0 <= i < s.len() ==> is_slug_char(#[trigger] s[i])
            &&& s.len() > 0 ==> s[0] != '-' && s.last() != '-'
            &&& forall|i: int| 0 <= i < s.len() - 1 && #[trigger] s[i] == '-' ==> s[i + 1] != '-'
            &&& (s.len() == 0 <==> !has_alnum(input))
        }),
{
    lemma_runs_are_words(input);
    lemma_words_slug_shape(alnum_runs(input));
}

/// Law: the slug of a slug is the slug itself.
pub proof fn lemma_slug_idempotent(input: Seq<char>)
    ensures
        slug_spec(slug_spec(input)) == slug_spec(input),
{
    let r = alnum_runs(input);
    lemma_runs_are_words(input);
    lemma_lower_join(r);
    let lr = lower_words(r);
    lemma_runs_of_join(lr);
    lemma_lower_join(lr);
    assert forall|i: int| 0 <= i < lr.len() implies #[trigger] lower_words(lr)[i] == lr[i] by {
        lemma_lower_twice(r[i]);
    }
    assert(lower_words(lr) =~= lr);
}

/// Law: the slug of two texts joined by a space is their slugs joined by a
/// hyphen, when both slugs are non-empty.
pub proof fn lemma_slug_concat(a: Seq<char>, b: Seq<char>)
    requires
        slug_spec(a).len() > 0,
        slug_spec(b).len() > 0,
    ensures
        slug_spec(a + seq![' '] + b) == slug_spec(a) + seq!['-'] + slug_spec(b),
{
    let ra = alnum_runs(a);
    let rb = alnum_runs(b);
    lemma_runs_split(a, ' ', b);
    if ra.len() == 0 {
        assert(join_hyphens(ra) =~= Seq::<char>::empty());
    }
    if rb.len() == 0 {
        assert(join_hyphens(rb) =~= Seq::<char>::empty());
    }
    lemma_join_concat(ra, rb);
    lemma_lower_char_facts('-');
    assert(ascii_lowercase(join_hyphens(ra) + seq!['-'] + join_hyphens(rb)) =~= ascii_lowercase(
        join_hyphens(ra),
    ) + seq!['-'] + ascii_lowercase(join_hyphens(rb)));
}

} // verus!
