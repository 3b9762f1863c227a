//! The metadata block at the top of a post: `.. title:`, `.. date:`,
//! `.. author:`, `.. slug:` and `.. tags:` lines, up to a line that starts
//! with `-->`.
use vstd::prelude::*;
use crate::text::{
    chars_of, has_prefix, lemma_split_nonempty, is_ascii_char, pieces_view, slice_chars, split_chars, split_spec,
    starts_with, string_from_chars, trim, trim_spec,
};

verus! {

broadcast use vstd::string::group_string_axioms;

/// The line that ends the metadata block starts with this.
pub open spec fn end_marker() -> Seq<char> {
    seq!['-', '-', '>']
}

/// Prefix of the title line.
pub open spec fn title_prefix() -> Seq<char> {
    seq!['.', '.', ' ', 't', 'i', 't', 'l', 'e', ':']
}

/// Prefix of the date line.
pub open spec fn date_prefix() -> Seq<char> {
    seq!['.', '.', ' ', 'd', 'a', 't', 'e', ':']
}

/// Prefix of the author line.
pub open spec fn author_prefix() -> Seq<char> {
    seq!['.', '.', ' ', 'a', 'u', 't', 'h', 'o', 'r', ':']
}

/// Prefix of the slug line.
pub open spec fn slug_prefix() -> Seq<char> {
    seq!['.', '.', ' ', 's', 'l', 'u', 'g', ':']
}

/// Prefix of the tags line.
pub open spec fn tags_prefix() -> Seq<char> {
    seq!['.', '.', ' ', 't', 'a', 'g', 's', ':']
}

/// The tag line used when the tags line is blank.
pub open spec fn uncategorized() -> Seq<char> {
    seq!['U', 'n', 'c', 'a', 't', 'e', 'g', 'o', 'r', 'i', 'z', 'e', 'd']
}

/// The value of a metadata line whose prefix has `p` characters is what
/// follows the prefix and the one character after it (a byte slice from
/// byte `p + 1`). That slice exists only when the line goes on past the
/// prefix and the character right after it is a single byte (ASCII).
pub open spec fn value_sliceable(line: Seq<char>, p: nat) -> bool {
    line.len() > p && is_ascii_char(line[p as int])
}

/// The value of a metadata line whose prefix has `p` characters.
pub open spec fn line_value(line: Seq<char>, p: nat) -> Seq<char> {
    line.skip(p + 1 as int)
}

/// The metadata gathered so far.
pub struct MetaSpec {
    /// Value of the last title line.
    pub title: Seq<char>,
    /// Value of the last date line.
    pub date: Seq<char>,
    /// Values of all date lines, in order.
    pub dates: Seq<Seq<char>>,
    /// Value of the last author line.
    pub author: Seq<char>,
    /// Value of the last slug line.
    pub slug: Seq<char>,
    /// The trimmed value of the last tags line, or `Uncategorized` if it
    /// was blank; empty if there was no tags line.
    pub tagline: Seq<char>,
}

/// Nothing gathered yet.
pub open spec fn meta_init() -> MetaSpec {
    MetaSpec {
        title: Seq::empty(),
        date: Seq::empty(),
        dates: Seq::empty(),
        author: Seq::empty(),
        slug: Seq::empty(),
        tagline: Seq::empty(),
    }
}

/// Whether a line of the metadata block can be read without slicing a
/// string out of bounds or inside a character.
pub open spec fn line_ok(line: Seq<char>) -> bool {
    if has_prefix(line, title_prefix()) {
        value_sliceable(line, 9)
    } else if has_prefix(line, date_prefix()) {
        value_sliceable(line, 8)
    } else if has_prefix(line, author_prefix()) {
        value_sliceable(line, 10)
    } else if has_prefix(line, slug_prefix()) {
        value_sliceable(line, 8)
    } else if has_prefix(line, tags_prefix()) {
        value_sliceable(line, 8)
    } else {
        true
    }
}

/// The tag line of a tags line's value: trimmed, `Uncategorized` if blank.
pub open spec fn tagline_of(value: Seq<char>) -> Seq<char> {
    if trim_spec(value).len() == 0 {
        uncategorized()
    } else {
        trim_spec(value)
    }
}

/// What one metadata line adds to the metadata gathered so far.
pub open spec fn meta_step(m: MetaSpec, line: Seq<char>) -> MetaSpec {
    if has_prefix(line, title_prefix()) {
        MetaSpec { title: line_value(line, 9), ..m }
    } else if has_prefix(line, date_prefix()) {
        MetaSpec { date: line_value(line, 8), dates: m.dates.push(line_value(line, 8)), ..m }
    } else if has_prefix(line, author_prefix()) {
        MetaSpec { author: line_value(line, 10), ..m }
    } else if has_prefix(line, slug_prefix()) {
        MetaSpec { slug: line_value(line, 8), ..m }
    } else if has_prefix(line, tags_prefix()) {
        MetaSpec { tagline: tagline_of(line_value(line, 8)), ..m }
    } else {
        m
    }
}

/// The metadata of `lines`, starting from `m`: lines are read in order
/// until one starts with `-->`.
pub open spec fn meta_from(m: MetaSpec, lines: Seq<Seq<char>>) -> MetaSpec
    decreases lines.len(),
{
    if lines.len() == 0 || has_prefix(lines[0], end_marker()) {
        m
    } else {
        meta_from(meta_step(m, lines[0]), lines.drop_first())
    }
}

/// Every line read before the end of the metadata block can be read.
pub open spec fn lines_ok(lines: Seq<Seq<char>>) -> bool
    decreases lines.len(),
{
    if lines.len() == 0 || has_prefix(lines[0], end_marker()) {
        true
    } else {
        line_ok(lines[0]) && lines_ok(lines.drop_first())
    }
}

/// The lines of a post: its text split at every line feed.
pub open spec fn lines_of(content: Seq<char>) -> Seq<Seq<char>> {
    split_spec(content, '\n')
}

/// The metadata of a post's text.
pub open spec fn metadata_spec(content: Seq<char>) -> MetaSpec {
    meta_from(meta_init(), lines_of(content))
}

/// Whether every line of the metadata block of a post's text can be read.
pub open spec fn metadata_ok(content: Seq<char>) -> bool {
    lines_ok(lines_of(content))
}

/// The metadata of a post, as read from its text.
pub struct Metadata {
    pub title: String,
    pub date: String,
    pub dates: Vec<String>,
    pub author: String,
    pub slug: String,
    pub tagline: String,
}

impl View for Metadata {
    type V = MetaSpec;

    open spec fn view(&self) -> MetaSpec {
        MetaSpec {
            title: self.title@,
            date: self.date@,
            dates: self.dates@.map_values(|s: String| s@),
            author: self.author@,
            slug: self.slug@,
            tagline: self.tagline@,
        }
    }
}

fn title_prefix_chars() -> (v: Vec<char>)
    ensures
        v@ == title_prefix(),
{
    let v = vec!['.', '.', ' ', 't', 'i', 't', 'l', 'e', ':'];
    assert(v@ =~= title_prefix());
    v
}

fn date_prefix_chars() -> (v: Vec<char>)
    ensures
        v@ == date_prefix(),
{
    let v = vec!['.', '.', ' ', 'd', 'a', 't', 'e', ':'];
    assert(v@ =~= date_prefix());
    v
}

fn author_prefix_chars() -> (v: Vec<char>)
    ensures
        v@ == author_prefix(),
{
    let v = vec!['.', '.', ' ', 'a', 'u', 't', 'h', 'o', 'r', ':'];
    assert(v@ =~= author_prefix());
    v
}

fn slug_prefix_chars() -> (v: Vec<char>)
    ensures
        v@ == slug_prefix(),
{
    let v = vec!['.', '.', ' ', 's', 'l', 'u', 'g', ':'];
    assert(v@ =~= slug_prefix());
    v
}

fn tags_prefix_chars() -> (v: Vec<char>)
    ensures
        v@ == tags_prefix(),
{
    let v = vec!['.', '.', ' ', 't', 'a', 'g', 's', ':'];
    assert(v@ =~= tags_prefix());
    v
}

fn end_marker_chars() -> (v: Vec<char>)
    ensures
        v@ == end_marker(),
{
    let v = vec!['-', '-', '>'];
    assert(v@ =~= end_marker());
    v
}

fn uncategorized_chars() -> (v: Vec<char>)
    ensures
        v@ == uncategorized(),
{
    let v = vec!['U', 'n', 'c', 'a', 't', 'e', 'g', 'o', 'r', 'i', 'z', 'e', 'd'];
    assert(v@ =~= uncategorized());
    v
}

/// The value of a metadata line whose prefix has `p` characters, or
/// `None` where that value cannot be sliced out.
fn value_of(line: &Vec<char>, p: usize) -> (r: Option<String>)
    ensures
        r is Some <==> value_sliceable(line@, p as nat),
        r matches Some(v) ==> v@ == line_value(line@, p as nat),
{
    if line.len() > p && (line[p] as u32) < 128 {
        let v = slice_chars(line, p + 1, line.len());
        assert(line@.subrange(p + 1, line@.len() as int) =~= line@.skip(p + 1));
        Some(string_from_chars(&v))
    } else {
        None
    }
}

/// Reads one metadata line into `m`; `false` where the line cannot be read.
fn read_meta_line(m: &mut Metadata, line: &Vec<char>) -> (ok: bool)
    ensures
        ok == line_ok(line@),
        ok ==> final(m)@ == meta_step(old(m)@, line@),
{
    if starts_with(line, &title_prefix_chars()) {
        match value_of(line, 9) {
            Some(v) => {
                m.title = v;
                true
            },
            None => false,
        }
    } else if starts_with(line, &date_prefix_chars()) {
        match value_of(line, 8) {
            Some(v) => {
                let ghost old_dates = m.dates@;
                m.date = v.clone();
                m.dates.push(v);
                assert(m.dates@.map_values(|s: String| s@) =~= old_dates.map_values(
                    |s: String| s@,
                ).push(line_value(line@, 8)));
                true
            },
            None => false,
        }
    } else if starts_with(line, &author_prefix_chars()) {
        match value_of(line, 10) {
            Some(v) => {
                m.author = v;
                true
            },
            None => false,
        }
    } else if starts_with(line, &slug_prefix_chars()) {
        match value_of(line, 8) {
            Some(v) => {
                m.slug = v;
                true
            },
            None => false,
        }
    } else if starts_with(line, &tags_prefix_chars()) {
        match value_of(line, 8) {
            Some(v) => {
                let t = trim(&chars_of(v.as_str()));
                if t.len() == 0 {
                    m.tagline = string_from_chars(&uncategorized_chars());
                } else {
                    m.tagline = string_from_chars(&t);
                }
                true
            },
            None => false,
        }
    } else {
        true
    }
}

/// Reads the metadata block of a post's text; `None` where one of its
/// lines is too short to hold the value its prefix announces.
pub fn read_metadata(content: &str) -> (r: Option<Metadata>)
    ensures
        r is Some <==> metadata_ok(content@),
        r matches Some(m) ==> m@ == metadata_spec(content@),
{
    let chars = chars_of(content);
    let lines = split_chars(&chars, '\n');
    let ghost all = pieces_view(lines@);
    let mut m = Metadata {
        title: String::new(),
        date: String::new(),
        dates: Vec::new(),
        author: String::new(),
        slug: String::new(),
        tagline: String::new(),
    };
    assert(m@.dates =~= Seq::<Seq<char>>::empty());
    assert(m@ == meta_init());
    let end = end_marker_chars();
    let n = lines.len();
    let mut i: usize = 0;
    assert(all.skip(0) =~= all);
    while i < n
        invariant
            n == lines.len(),
            i <= n,
            all == pieces_view(lines@),
            all == lines_of(content@),
            all.len() == n,
            end@ == end_marker(),
            meta_from(meta_init(), all) == meta_from(m@, all.skip(i as int)),
            lines_ok(all) == lines_ok(all.skip(i as int)),
        decreases n - i,
    {
        let ghost rest = all.skip(i as int);
        assert(rest[0] == lines@[i as int]@);
        assert(rest.drop_first() =~= all.skip(i + 1));
        if starts_with(&lines[i], &end) {
            assert(meta_from(m@, rest) == m@);
            assert(lines_ok(rest));
            return Some(m);
        }
        let ok = read_meta_line(&mut m, &lines[i]);
        if !ok {
            assert(!lines_ok(rest));
            return None;
        }
        i = i + 1;
    }
    assert(all.skip(n as int) =~= Seq::<Seq<char>>::empty());
    Some(m)
}

// ---------------------------------------------------------------------
// The metadata block ends at the first line starting with `-->`
// ---------------------------------------------------------------------

proof fn lemma_split_append(a: Seq<char>, b: Seq<char>, sep: char)
    ensures
        split_spec(a + seq![sep] + b, sep) == split_spec(a, sep) + split_spec(b, sep),
    decreases b.len(),
{
    let s = a + seq![sep] + b;
    if b.len() == 0 {
        assert(s.drop_last() =~= a);
        assert(split_spec(a, sep) + split_spec(b, sep) =~= split_spec(a, sep).push(Seq::<char>::empty()));
    } else {
        lemma_split_append(a, b.drop_last(), sep);
        assert(s.drop_last() =~= a + seq![sep] + b.drop_last());
        let pa = split_spec(a, sep);
        let pb = split_spec(b.drop_last(), sep);
        lemma_split_nonempty(b.drop_last(), sep);
        if b.last() == sep {
            assert((pa + pb).push(Seq::<char>::empty()) =~= pa + pb.push(Seq::<char>::empty()));
        } else {
            let p = pa + pb;
            assert(p.update(p.len() - 1, p.last().push(b.last())) =~= pa + pb.update(
                pb.len() - 1,
                pb.last().push(b.last()),
            ));
        }
    }
}

proof fn lemma_split_no_sep(s: Seq<char>, sep: char)
    requires
        forall|i: int| 0 <= i < s.len() ==> s[i] != sep,
    ensures
        split_spec(s, sep) == seq![s],
    decreases s.len(),
{
    if s.len() == 0 {
        assert(s =~= Seq::<char>::empty());
        assert(split_spec(s, sep) =~= seq![s]);
    } else {
        lemma_split_no_sep(s.drop_last(), sep);
        assert(s.drop_last().push(s.last()) =~= s);
        assert(seq![s.drop_last()].update(0, s.drop_last().push(s.last())) =~= seq![s]);
    }
}

proof fn lemma_split_first_prefix(s: Seq<char>, j: int, sep: char)
    requires
        0 <= j <= s.len(),
        forall|i: int| 0 <= i < j ==> s[i] != sep,
    ensures
        split_spec(s, sep).len() >= 1,
        has_prefix(split_spec(s, sep)[0], s.take(j)),
    decreases s.len(),
{
    lemma_split_nonempty(s, sep);
    if s.len() == j {
        lemma_split_no_sep(s, sep);
        assert(s.take(j) =~= s);
        assert(s.subrange(0, s.len() as int) =~= s);
    } else {
        let d = s.drop_last();
        lemma_split_first_prefix(d, j, sep);
        assert(d.take(j) =~= s.take(j));
        let pd = split_spec(d, sep);
        if s.last() != sep && pd.len() == 1 {
            let f = pd[0].push(s.last());
            assert(split_spec(s, sep)[0] == f);
            assert(f.subrange(0, j) =~= pd[0].subrange(0, j));
        } else if s.last() != sep {
            assert(split_spec(s, sep)[0] == pd[0]);
        } else {
            assert(split_spec(s, sep)[0] == pd[0]);
        }
    }
}

proof fn lemma_meta_stops(m: MetaSpec, before: Seq<Seq<char>>, rest: Seq<Seq<char>>)
    requires
        rest.len() > 0,
        has_prefix(rest[0], end_marker()),
    ensures
        meta_from(m, before + rest) == meta_from(m, before + seq![end_marker()]),
        lines_ok(before + rest) == lines_ok(before + seq![end_marker()]),
    decreases before.len(),
{
    let e = seq![end_marker()];
    assert(has_prefix(end_marker(), end_marker())) by {
        assert(end_marker().subrange(0, 3) =~= end_marker());
    }
    if before.len() == 0 {
        assert(before + rest =~= rest);
        assert(before + e =~= e);
    } else {
        let b = before.drop_first();
        assert((before + rest).drop_first() =~= b + rest);
        assert((before + e).drop_first() =~= b + e);
        assert((before + rest)[0] == before[0]);
        assert((before + e)[0] == before[0]);
        lemma_meta_stops(meta_step(m, before[0]), b, rest);
    }
}

proof fn lemma_metadata_with_marker(head: Seq<char>, tail: Seq<char>)
    ensures
        metadata_spec(head + seq!['\n'] + end_marker() + tail) == meta_from(
            meta_init(),
            lines_of(head) + seq![end_marker()],
        ),
        metadata_ok(head + seq!['\n'] + end_marker() + tail) == lines_ok(
            lines_of(head) + seq![end_marker()],
        ),
{
    let b = end_marker() + tail;
    let c = head + seq!['\n'] + end_marker() + tail;
    assert(c =~= head + seq!['\n'] + b);
    lemma_split_append(head, b, '\n');
    lemma_split_first_prefix(b, 3, '\n');
    assert(b.take(3) =~= end_marker());
    let rest = split_spec(b, '\n');
    assert(rest[0].subrange(0, 3) == end_marker());
    lemma_meta_stops(meta_init(), lines_of(head), rest);
}

/// Law: a text whose first line starts with `-->` has no metadata,
/// whatever follows, and can be read.
pub proof fn lemma_metadata_marker_first(tail: Seq<char>)
    ensures
        metadata_spec(end_marker() + tail) == meta_init(),
        metadata_ok(end_marker() + tail),
{
    let b = end_marker() + tail;
    lemma_split_first_prefix(b, 3, '\n');
    assert(b.take(3) =~= end_marker());
    assert(split_spec(b, '\n')[0].subrange(0, 3) == end_marker());
}

/// Law: nothing after the first line that starts with `-->` is read as
/// metadata: two texts that agree up to such a line have the same
/// metadata, and can be read alike.
pub proof fn lemma_metadata_ends_at_marker(head: Seq<char>, tail1: Seq<char>, tail2: Seq<char>)
    ensures
        metadata_spec(head + seq!['\n'] + end_marker() + tail1) == metadata_spec(
            head + seq!['\n'] + end_marker() + tail2,
        ),
        metadata_ok(head + seq!['\n'] + end_marker() + tail1) == metadata_ok(
            head + seq!['\n'] + end_marker() + tail2,
        ),
{
    lemma_metadata_with_marker(head, tail1);
    lemma_metadata_with_marker(head, tail2);
}

/// Splitting a concatenation: the last piece of `a` joins the first piece
/// of `b`.
proof fn lemma_split_concat(a: Seq<char>, b: Seq<char>, sep: char)
    ensures
        split_spec(a + b, sep) == split_spec(a, sep).drop_last() + seq![
            split_spec(a, sep).last() + split_spec(b, sep)[0],
        ] + split_spec(b, sep).drop_first(),
    decreases b.len(),
{
    lemma_split_nonempty(a, sep);
    let pa = split_spec(a, sep);
    if b.len() == 0 {
        assert(a + b =~= a);
        assert(pa.last() + Seq::<char>::empty() =~= pa.last());
        assert(pa.drop_last() + seq![pa.last()] + split_spec(b, sep).drop_first() =~= pa);
    } else {
        let bd = b.drop_last();
        let x = b.last();
        lemma_split_concat(a, bd, sep);
        lemma_split_nonempty(bd, sep);
        assert((a + b).drop_last() =~= a + bd);
        assert((a + b).last() == x);
        let pb = split_spec(bd, sep);
        let prev = pa.drop_last() + seq![pa.last() + pb[0]] + pb.drop_first();
        if x == sep {
            assert(split_spec(b, sep) == pb.push(Seq::<char>::empty()));
            assert(prev.push(Seq::<char>::empty()) =~= pa.drop_last() + seq![pa.last() + pb[0]]
                + pb.push(Seq::<char>::empty()).drop_first());
        } else if pb.len() == 1 {
            let nb = pb.update(0, pb[0].push(x));
            assert(split_spec(b, sep) == nb);
            assert(pa.last() + pb[0].push(x) =~= (pa.last() + pb[0]).push(x));
            assert(prev.update(prev.len() - 1, prev.last().push(x)) =~= pa.drop_last() + seq![
                pa.last() + nb[0],
            ] + nb.drop_first());
        } else {
            let nb = pb.update(pb.len() - 1, pb.last().push(x));
            assert(split_spec(b, sep) == nb);
            assert(prev.update(prev.len() - 1, prev.last().push(x)) =~= pa.drop_last() + seq![
                pa.last() + nb[0],
            ] + nb.drop_first());
        }
    }
}

/// Two lists of lines that agree before a line `k` at which both have a
/// line starting with `-->` give the same metadata.
proof fn lemma_meta_agree(m: MetaSpec, x: Seq<Seq<char>>, y: Seq<Seq<char>>, k: int)
    requires
        0 <= k < x.len(),
        k < y.len(),
        forall|i: int| 0 <= i < k ==> x[i] == y[i],
        has_prefix(x[k], end_marker()),
        has_prefix(y[k], end_marker()),
    ensures
        meta_from(m, x) == meta_from(m, y),
        lines_ok(x) == lines_ok(y),
    decreases k,
{
    if k > 0 {
        assert(x[0] == y[0]);
        if !has_prefix(x[0], end_marker()) {
            let xd = x.drop_first();
            let yd = y.drop_first();
            assert forall|i: int| 0 <= i < k - 1 implies xd[i] == yd[i] by {
                assert(xd[i] == x[i + 1]);
                assert(yd[i] == y[i + 1]);
            }
            assert(xd[k - 1] == x[k]);
            assert(yd[k - 1] == y[k]);
            lemma_meta_agree(meta_step(m, x[0]), xd, yd, k - 1);
        }
    }
}

/// Law: once a text has a line that starts with `-->`, whatever is
/// appended to it leaves its metadata, and whether it can be read,
/// unchanged.
pub proof fn lemma_metadata_ignores_appended(c: Seq<char>, s: Seq<char>)
    requires
        exists|k: int| 0 <= k < lines_of(c).len() && has_prefix(#[trigger] lines_of(c)[k], end_marker()),
    ensures
        metadata_spec(c + s) == metadata_spec(c),
        metadata_ok(c + s) == metadata_ok(c),
{
    let k = choose|k: int| 0 <= k < lines_of(c).len() && has_prefix(#[trigger] lines_of(c)[k], end_marker());
    let x = lines_of(c);
    let y = lines_of(c + s);
    let pb = split_spec(s, '\n');
    lemma_split_concat(c, s, '\n');
    lemma_split_nonempty(c, '\n');
    lemma_split_nonempty(s, '\n');
    assert(y.len() >= x.len());
    assert forall|i: int| 0 <= i < k implies x[i] == y[i] by {
        assert(y[i] == x.drop_last()[i]);
    }
    if k < x.len() - 1 {
        assert(y[k] == x.drop_last()[k]);
    } else {
        let l = x.last() + pb[0];
        assert(y[k] == l);
        assert(l.subrange(0, 3) =~= x[k].subrange(0, 3));
    }
    lemma_meta_agree(meta_init(), y, x, k);
}

/// A line that is neither a metadata line nor the end of the block.
pub open spec fn is_other_line(l: Seq<char>) -> bool {
    &&& !has_prefix(l, title_prefix())
    &&& !has_prefix(l, date_prefix())
    &&& !has_prefix(l, author_prefix())
    &&& !has_prefix(l, slug_prefix())
    &&& !has_prefix(l, tags_prefix())
    &&& !has_prefix(l, end_marker())
}

/// Law: a line that starts with none of the metadata prefixes and not with
/// `-->` (such as the `<!--` that opens a block written as an HTML comment)
/// is skipped: the text after it has the same metadata, and can be read
/// alike, with or without it.
pub proof fn lemma_other_line_skipped(l: Seq<char>, c: Seq<char>)
    requires
        forall|i: int| 0 <= i < l.len() ==> l[i] != '\n',
        is_other_line(l),
    ensures
        metadata_spec(l + seq!['\n'] + c) == metadata_spec(c),
        metadata_ok(l + seq!['\n'] + c) == metadata_ok(c),
{
    lemma_split_append(l, c, '\n');
    lemma_split_no_sep(l, '\n');
    let all = lines_of(l + seq!['\n'] + c);
    assert(all == seq![l] + lines_of(c));
    assert(all[0] == l);
    assert(all.drop_first() =~= lines_of(c));
    assert(meta_step(meta_init(), l) == meta_init());
}

} // verus!
