//! Text as sequences of characters: splitting at a separator, joining,
//! lines, trimming and decimal numbers.
//!
//! Every table of the identity database is text. The contracts of the
//! library speak of it as `Seq<char>`; the functions here are the executable
//! counterparts on `Vec<char>`, with the lemmas that relate them.
use vstd::prelude::*;

verus! {

/// `String::push` appends one character.
pub assume_specification[ String::push ](s: &mut String, ch: char)
    ensures
        final(s)@ == old(s)@.push(ch),
;

/// The pieces of `s` between the occurrences of `sep`. There is always at
/// least one piece; a separator at either end gives an empty piece there.
pub open spec fn split(s: Seq<char>, sep: char) -> Seq<Seq<char>>
    decreases s.len(),
{
    if s.len() == 0 {
        seq![Seq::<char>::empty()]
    } else {
        let front = split(s.drop_last(), sep);
        if s.last() == sep {
            front.push(Seq::<char>::empty())
        } else {
            front.drop_last().push(front.last().push(s.last()))
        }
    }
}

/// The pieces written one after the other with `sep` between neighbours.
pub open spec fn join(parts: Seq<Seq<char>>, sep: char) -> Seq<char>
    decreases parts.len(),
{
    if parts.len() == 0 {
        Seq::<char>::empty()
    } else if parts.len() == 1 {
        parts[0]
    } else {
        join(parts.drop_last(), sep).push(sep) + parts.last()
    }
}

/// The views of a vector of character vectors.
pub open spec fn views(v: Seq<Vec<char>>) -> Seq<Seq<char>> {
    Seq::new(v.len(), |i: int| v[i]@)
}

/// The views of a vector of strings.
pub open spec fn string_views(v: Seq<String>) -> Seq<Seq<char>> {
    Seq::new(v.len(), |i: int| v[i]@)
}

/// A split has at least one piece.
pub proof fn lemma_split_len(s: Seq<char>, sep: char)
    ensures
        split(s, sep).len() >= 1,
    decreases s.len(),
{
    if s.len() > 0 {
        lemma_split_len(s.drop_last(), sep);
    }
}

/// No piece of a split holds the separator.
pub proof fn lemma_split_pieces_free(s: Seq<char>, sep: char)
    ensures
        forall|i: int| 0 <= i < split(s, sep).len() ==> !(#[trigger] split(s, sep)[i]).contains(sep),
    decreases s.len(),
{
    if s.len() > 0 {
        lemma_split_len(s.drop_last(), sep);
        lemma_split_pieces_free(s.drop_last(), sep);
        let front = split(s.drop_last(), sep);
        if s.last() != sep {
            let grown = front.last().push(s.last());
            assert(!grown.contains(sep)) by {
                if grown.contains(sep) {
                    let j = choose|j: int| 0 <= j < grown.len() && grown[j] == sep;
                    assert(front.last()[j] == sep);
                    assert(front.last().contains(sep));
                }
            }
        }
    }
}

/// Joining the pieces of a split gives the text back.
pub proof fn lemma_join_split(s: Seq<char>, sep: char)
    ensures
        join(split(s, sep), sep) == s,
    decreases s.len(),
{
    if s.len() == 0 {
    } else {
        let t = s.drop_last();
        let front = split(t, sep);
        lemma_split_len(t, sep);
        lemma_join_split(t, sep);
        assert(s == t.push(s.last()));
        if s.last() == sep {
            let all = front.push(Seq::<char>::empty());
            assert(all.drop_last() == front);
            assert(join(all, sep) == join(front, sep).push(sep) + Seq::<char>::empty());
            assert(join(all, sep) == s);
        } else {
            let grown = front.last().push(s.last());
            let all = front.drop_last().push(grown);
            if front.len() == 1 {
                assert(all.len() == 1);
                assert(join(all, sep) == grown);
                assert(join(front, sep) == front[0]);
                assert(join(all, sep) == s);
            } else {
                assert(all.drop_last() == front.drop_last());
                assert(join(all, sep) == join(front.drop_last(), sep).push(sep) + grown);
                assert(join(front, sep) == join(front.drop_last(), sep).push(sep) + front.last());
                assert(join(all, sep) == join(front, sep).push(s.last()));
                assert(join(all, sep) == s);
            }
        }
    }
}

/// Splitting a text that ends in a separator-free run `tail`.
pub proof fn lemma_split_extend(s: Seq<char>, tail: Seq<char>, sep: char)
    requires
        !tail.contains(sep),
    ensures
        split(s + tail, sep) == split(s, sep).drop_last().push(split(s, sep).last() + tail),
    decreases tail.len(),
{
    lemma_split_len(s, sep);
    if tail.len() == 0 {
        assert(s + tail == s);
        assert(split(s, sep).last() + tail == split(s, sep).last());
        assert(split(s, sep).drop_last().push(split(s, sep).last()) == split(s, sep));
    } else {
        let t = tail.drop_last();
        assert(!t.contains(sep)) by {
            if t.contains(sep) {
                let j = choose|j: int| 0 <= j < t.len() && t[j] == sep;
                assert(tail[j] == sep);
            }
        }
        lemma_split_extend(s, t, sep);
        assert((s + tail).drop_last() == s + t);
        assert((s + tail).last() == tail.last());
        assert(tail[tail.len() - 1] == tail.last());
        assert(tail.last() != sep);
        let front = split(s + t, sep);
        let base = split(s, sep);
        assert(front.last() == base.last() + t);
        assert(front.drop_last() == base.drop_last());
        assert((base.last() + t).push(tail.last()) == base.last() + tail);
    }
}

/// Splitting a join gives the pieces back, when there is at least one piece
/// and none of them holds the separator.
pub proof fn lemma_split_join(parts: Seq<Seq<char>>, sep: char)
    requires
        parts.len() >= 1,
        forall|i: int| 0 <= i < parts.len() ==> !(#[trigger] parts[i]).contains(sep),
    ensures
        split(join(parts, sep), sep) == parts,
    decreases parts.len(),
{
    if parts.len() == 1 {
        lemma_split_extend(Seq::<char>::empty(), parts[0], sep);
        assert(Seq::<char>::empty() + parts[0] == parts[0]);
        assert(split(Seq::<char>::empty(), sep) == seq![Seq::<char>::empty()]);
        assert(split(parts[0], sep) == seq![parts[0]]);
        assert(seq![parts[0]] == parts);
    } else {
        let front = parts.drop_last();
        lemma_split_join(front, sep);
        let head = join(front, sep).push(sep);
        assert(head.drop_last() == join(front, sep));
        assert(split(head, sep) == front.push(Seq::<char>::empty()));
        lemma_split_extend(head, parts.last(), sep);
        assert(Seq::<char>::empty() + parts.last() == parts.last());
        assert(front.push(Seq::<char>::empty()).drop_last() == front);
        assert(front.push(parts.last()) == parts);
    }
}

/// The characters of a string slice.
pub fn chars_of(s: &str) -> (v: Vec<char>)
    ensures
        v@ == s@,
{
    let mut v: Vec<char> = Vec::new();
    for c in it: s.chars()
        invariant
            v@ == it.seq().take(it.index() as int),
            it.seq() == s@,
    {
        v.push(c);
    }
    v
}

/// The string made of the given characters.
pub fn string_of(v: &Vec<char>) -> (s: String)
    ensures
        s@ == v@,
{
    let mut s = String::new();
    let mut i: usize = 0;
    while i < v.len()
        invariant
            i <= v.len(),
            s@ == v@.take(i as int),
        decreases v.len() - i,
    {
        s.push(v[i]);
        i += 1;
    }
    s
}

/// Appends the characters of `tail` to `out`.
pub fn push_all(out: &mut Vec<char>, tail: &Vec<char>)
    ensures
        final(out)@ == old(out)@ + tail@,
{
    let mut i: usize = 0;
    while i < tail.len()
        invariant
            i <= tail.len(),
            out@ == old(out)@ + tail@.take(i as int),
        decreases tail.len() - i,
    {
        out.push(tail[i]);
        i += 1;
    }
}

/// Whether two character vectors hold the same text.
pub fn same_chars(a: &Vec<char>, b: &Vec<char>) -> (r: bool)
    ensures
        r == (a@ == b@),
{
    if a.len() != b.len() {
        return false;
    }
    let mut i: usize = 0;
    while i < a.len()
        invariant
            i <= a.len(),
            a.len() == b.len(),
            a@.take(i as int) == b@.take(i as int),
        decreases a.len() - i,
    {
        if a[i] != b[i] {
            return false;
        }
        assert(a@.take(i + 1) == a@.take(i as int).push(a@[i as int]));
        assert(b@.take(i + 1) == b@.take(i as int).push(b@[i as int]));
        i += 1;
    }
    assert(a@.take(a.len() as int) == a@);
    assert(b@.take(b.len() as int) == b@);
    true
}

/// Whether two string slices hold the same text.
pub fn same_text(a: &str, b: &str) -> (r: bool)
    ensures
        r == (a@ == b@),
{
    let x = chars_of(a);
    let y = chars_of(b);
    same_chars(&x, &y)
}

/// Splits `s` at every `sep`.
pub fn split_chars(s: &Vec<char>, sep: char) -> (parts: Vec<Vec<char>>)
    ensures
        views(parts@) == split(s@, sep),
        parts@.len() >= 1,
{
    let mut parts: Vec<Vec<char>> = Vec::new();
    let mut cur: Vec<char> = Vec::new();
    let mut i: usize = 0;
    assert(s@.take(0) == Seq::<char>::empty());
    assert(views(parts@).push(cur@) == seq![Seq::<char>::empty()]);
    while i < s.len()
        invariant
            i <= s.len(),
            views(parts@).push(cur@) == split(s@.take(i as int), sep),
        decreases s.len() - i,
    {
        let c = s[i];
        proof {
            let next = s@.take(i + 1);
            assert(next.drop_last() == s@.take(i as int));
            assert(next.last() == c);
            let front = split(s@.take(i as int), sep);
            assert(front.last() == cur@);
            assert(front.drop_last() == views(parts@));
        }
        if c == sep {
            let ghost before = views(parts@);
            parts.push(cur);
            assert(views(parts@) == before.push(cur@));
            cur = Vec::new();
        } else {
            cur.push(c);
        }
        i += 1;
    }
    assert(s@.take(s.len() as int) == s@);
    let ghost before = views(parts@);
    parts.push(cur);
    assert(views(parts@) == before.push(cur@));
    parts
}

/// Joins the pieces with `sep` between neighbours.
pub fn join_chars(parts: &Vec<Vec<char>>, sep: char) -> (out: Vec<char>)
    ensures
        out@ == join(views(parts@), sep),
{
    let mut out: Vec<char> = Vec::new();
    let mut i: usize = 0;
    while i < parts.len()
        invariant
            i <= parts.len(),
            out@ == join(views(parts@).take(i as int), sep),
        decreases parts.len() - i,
    {
        let ghost upto = views(parts@).take(i + 1);
        assert(upto.drop_last() == views(parts@).take(i as int));
        assert(upto.last() == parts@[i as int]@);
        if i > 0 {
            out.push(sep);
        }
        push_all(&mut out, &parts[i]);
        assert(out@ == join(upto, sep)) by {
            if i == 0 {
                assert(join(views(parts@).take(0), sep) == Seq::<char>::empty());
                assert(Seq::<char>::empty() + parts@[0]@ == parts@[0]@);
            }
        }
        i += 1;
    }
    assert(views(parts@).take(parts.len() as int) == views(parts@));
    out
}

/// `s` without the carriage return at its end, where it has one.
pub open spec fn strip_cr(s: Seq<char>) -> Seq<char> {
    if ends_in_cr(s) {
        s.drop_last()
    } else {
        s
    }
}

/// Whether `s` ends in a carriage return.
pub open spec fn ends_in_cr(s: Seq<char>) -> bool {
    s.len() > 0 && s.last() == '\r'
}

/// The pieces, each without the carriage return at its end.
pub open spec fn stripped(pieces: Seq<Seq<char>>) -> Seq<Seq<char>> {
    Seq::new(pieces.len(), |i: int| strip_cr(pieces[i]))
}

/// The lines of a text. A line ends at a newline, or at a carriage return
/// directly followed by a newline; the line ending is not part of the
/// line. What follows the last newline is a line of its own unless it is
/// empty, and keeps a carriage return at its end.
pub open spec fn lines(s: Seq<char>) -> Seq<Seq<char>> {
    let pieces = split(s, '\n');
    let ended = stripped(pieces.drop_last());
    if pieces.last().len() == 0 {
        ended
    } else {
        ended.push(pieces.last())
    }
}

/// The characters of `s` from `from` up to `to`.
fn copy_range(s: &Vec<char>, from: usize, to: usize) -> (out: Vec<char>)
    requires
        from <= to <= s.len(),
    ensures
        out@ == s@.subrange(from as int, to as int),
{
    let mut out: Vec<char> = Vec::new();
    let mut i: usize = from;
    while i < to
        invariant
            from <= i <= to <= s.len(),
            out@ == s@.subrange(from as int, i as int),
        decreases to - i,
    {
        out.push(s[i]);
        i += 1;
    }
    out
}

/// Splits a text into its lines.
pub fn line_chars(s: &Vec<char>) -> (out: Vec<Vec<char>>)
    ensures
        views(out@) == lines(s@),
{
    let mut pieces = split_chars(s, '\n');
    let ghost whole = views(pieces@);
    let n = pieces.len() - 1;
    let mut i: usize = 0;
    while i < n
        invariant
            i <= n,
            n == pieces.len() - 1,
            whole == split(s@, '\n'),
            whole.len() == n + 1,
            forall|k: int| 0 <= k < i ==> (#[trigger] pieces@[k])@ == strip_cr(whole[k]),
            forall|k: int| i <= k <= n ==> (#[trigger] pieces@[k])@ == whole[k],
        decreases n - i,
    {
        let ghost before = pieces@;
        let len = pieces[i].len();
        if len > 0 && pieces[i][len - 1] == '\r' {
            pieces[i].pop();
            assert(forall|k: int| 0 <= k <= n && k != i ==> pieces@[k] == before[k]);
            assert(pieces@[i as int]@ == before[i as int]@.drop_last());
        }
        assert(pieces@[i as int]@ == strip_cr(whole[i as int]));
        i += 1;
    }
    let ghost done = pieces@;
    if pieces[n].len() == 0 {
        pieces.pop();
    }
    assert(views(pieces@) == lines(s@)) by {
        assert(stripped(whole.drop_last()).len() == n);
        assert forall|k: int| 0 <= k < n implies views(pieces@)[k] == stripped(whole.drop_last())[k] by {
            assert(pieces@[k] == done[k]);
        }
        if whole.last().len() != 0 {
            assert(views(pieces@)[n as int] == whole.last());
        }
    }
    pieces
}

/// No line holds a newline.
pub proof fn lemma_lines_free(s: Seq<char>)
    ensures
        forall|i: int| 0 <= i < lines(s).len() ==> !(#[trigger] lines(s)[i]).contains('\n'),
{
    lemma_split_pieces_free(s, '\n');
    lemma_split_len(s, '\n');
    let pieces = split(s, '\n');
    assert forall|i: int| 0 <= i < lines(s).len() implies !(#[trigger] lines(s)[i]).contains(
        '\n',
    ) by {
        let line = lines(s)[i];
        if line.contains('\n') {
            let k = choose|k: int| 0 <= k < line.len() && line[k] == '\n';
            assert(pieces[i][k] == '\n');
            assert(pieces[i].contains('\n'));
        }
    }
}

/// The lines of a text made of pieces, each followed by a newline, are
/// those pieces, each without the carriage return at its end.
pub proof fn lemma_lines_of_joined(ls: Seq<Seq<char>>)
    requires
        ls.len() >= 1,
        forall|i: int| 0 <= i < ls.len() ==> !(#[trigger] ls[i]).contains('\n'),
    ensures
        lines(join(ls, '\n').push('\n')) == stripped(ls),
{
    lemma_split_join(ls, '\n');
    let text = join(ls, '\n').push('\n');
    assert(text.drop_last() == join(ls, '\n'));
    assert(split(text, '\n') == ls.push(Seq::<char>::empty()));
    assert(ls.push(Seq::<char>::empty()).drop_last() == ls);
}

/// White space, as Unicode's property of that name has it.
pub open spec fn is_whitespace(c: char) -> bool {
    let u = c as u32;
    ||| 0x09 <= u <= 0x0D
    ||| u == 0x20
    ||| u == 0x85
    ||| u == 0xA0
    ||| u == 0x1680
    ||| 0x2000 <= u <= 0x200A
    ||| u == 0x2028
    ||| u == 0x2029
    ||| u == 0x202F
    ||| u == 0x205F
    ||| u == 0x3000
}

/// Characters that may surround a text without being part of it.
#[derive(Debug, PartialEq, Eq, Structural, Clone, Copy)]
pub enum Padding {
    /// White space.
    WhiteSpace,
    /// The character with the number 0.
    Nul,
}

impl Padding {
    /// Whether `c` is such a character.
    pub open spec fn has(self, c: char) -> bool {
        match self {
            Padding::WhiteSpace => is_whitespace(c),
            Padding::Nul => c == '\0',
        }
    }

    /// Whether `c` is such a character.
    pub fn holds(&self, c: char) -> (r: bool)
        ensures
            r == self.has(c),
    {
        match self {
            Padding::WhiteSpace => {
                let u: u32 = c as u32;
                (0x09 <= u && u <= 0x0D) || u == 0x20 || u == 0x85 || u == 0xA0 || u == 0x1680 || (
                0x2000 <= u && u <= 0x200A) || u == 0x2028 || u == 0x2029 || u == 0x202F || u
                    == 0x205F || u == 0x3000
            },
            Padding::Nul => c == '\0',
        }
    }
}

/// How many characters of padding `s` begins with.
pub open spec fn leading(s: Seq<char>, padding: Padding) -> nat
    decreases s.len(),
{
    if s.len() > 0 && padding.has(s.first()) {
        1 + leading(s.drop_first(), padding)
    } else {
        0
    }
}

/// How many characters of padding `s` ends with.
pub open spec fn trailing(s: Seq<char>, padding: Padding) -> nat
    decreases s.len(),
{
    if s.len() > 0 && padding.has(s.last()) {
        1 + trailing(s.drop_last(), padding)
    } else {
        0
    }
}

/// `s` without the padding at its two ends.
pub open spec fn strip(s: Seq<char>, padding: Padding) -> Seq<char> {
    let rest = s.skip(leading(s, padding) as int);
    rest.take(rest.len() - trailing(rest, padding))
}

/// `s` without the white space at its two ends.
pub open spec fn trim(s: Seq<char>) -> Seq<char> {
    strip(s, Padding::WhiteSpace)
}

/// A text begins with `k` characters of padding where its first `k`
/// characters are padding and the next one is not.
pub proof fn lemma_leading(s: Seq<char>, padding: Padding, k: int)
    requires
        0 <= k <= s.len(),
        forall|j: int| 0 <= j < k ==> padding.has(#[trigger] s[j]),
        k == s.len() || !padding.has(s[k]),
    ensures
        leading(s, padding) == k,
    decreases k,
{
    if k > 0 {
        let t = s.drop_first();
        assert(forall|j: int| 0 <= j < k - 1 ==> padding.has(#[trigger] t[j])) by {
            assert(forall|j: int| 0 <= j < k - 1 ==> t[j] == s[j + 1]);
        }
        lemma_leading(t, padding, k - 1);
    }
}

/// A text ends with `k` characters of padding where its last `k`
/// characters are padding and the one before them is not.
pub proof fn lemma_trailing(s: Seq<char>, padding: Padding, k: int)
    requires
        0 <= k <= s.len(),
        forall|j: int| s.len() - k <= j < s.len() ==> padding.has(#[trigger] s[j]),
        k == s.len() || !padding.has(s[s.len() - k - 1]),
    ensures
        trailing(s, padding) == k,
    decreases k,
{
    if k > 0 {
        let t = s.drop_last();
        lemma_trailing(t, padding, k - 1);
    }
}

/// The padding that a text begins with is as long as the text at most,
/// is padding throughout, and ends where the text ends or before a
/// character that is no padding.
pub proof fn lemma_leading_is(s: Seq<char>, padding: Padding)
    ensures
        leading(s, padding) <= s.len(),
        forall|j: int| 0 <= j < leading(s, padding) ==> padding.has(#[trigger] s[j]),
        leading(s, padding) == s.len() || !padding.has(s[leading(s, padding) as int]),
    decreases s.len(),
{
    if s.len() > 0 && padding.has(s.first()) {
        let t = s.drop_first();
        lemma_leading_is(t, padding);
        assert forall|j: int| 0 <= j < leading(s, padding) implies padding.has(#[trigger] s[j]) by {
            if j > 0 {
                assert(s[j] == t[j - 1]);
            }
        }
        if leading(t, padding) < t.len() {
            assert(s[leading(s, padding) as int] == t[leading(t, padding) as int]);
        }
    }
}

/// The padding that a text ends with is as long as the text at most, is
/// padding throughout, and begins where the text begins or after a
/// character that is no padding.
pub proof fn lemma_trailing_is(s: Seq<char>, padding: Padding)
    ensures
        trailing(s, padding) <= s.len(),
        forall|j: int| s.len() - trailing(s, padding) <= j < s.len() ==> padding.has(#[trigger] s[j]),
        trailing(s, padding) == s.len() || !padding.has(s[s.len() - trailing(s, padding) - 1]),
    decreases s.len(),
{
    if s.len() > 0 && padding.has(s.last()) {
        let t = s.drop_last();
        lemma_trailing_is(t, padding);
        assert forall|j: int| s.len() - trailing(s, padding) <= j < s.len() implies padding.has(
            #[trigger] s[j],
        ) by {
            if j < s.len() - 1 {
                assert(s[j] == t[j]);
            }
        }
        if trailing(t, padding) < t.len() {
            assert(s[s.len() - trailing(s, padding) - 1] == t[t.len() - trailing(t, padding) - 1]);
        }
    }
}

/// A text without its padding has no padding at its two ends: to strip it
/// again changes nothing.
pub proof fn lemma_strip_twice(s: Seq<char>, padding: Padding)
    ensures
        strip(strip(s, padding), padding) == strip(s, padding),
{
    lemma_leading_is(s, padding);
    let rest = s.skip(leading(s, padding) as int);
    lemma_trailing_is(rest, padding);
    let t = strip(s, padding);
    if t.len() > 0 {
        assert(t[0] == s[leading(s, padding) as int]);
        assert(t.last() == rest[rest.len() - trailing(rest, padding) - 1]);
    }
    lemma_leading(t, padding, 0);
    lemma_trailing(t, padding, 0);
    assert(t.skip(0) == t);
    assert(t.take(t.len() as int) == t);
}

/// To trim a text twice is to trim it once.
pub proof fn lemma_trim_twice(s: Seq<char>)
    ensures
        trim(trim(s)) == trim(s),
{
    lemma_strip_twice(s, Padding::WhiteSpace);
}

/// A text with padding after it is, without its padding, the text without
/// its padding.
pub proof fn lemma_strip_padded(s: Seq<char>, padding: Padding, c: char)
    requires
        padding.has(c),
    ensures
        strip(s.push(c), padding) == strip(s, padding),
{
    lemma_leading_is(s, padding);
    let more = s.push(c);
    let a = leading(s, padding) as int;
    let rest = s.skip(a);
    lemma_trailing_is(rest, padding);
    if a == s.len() {
        lemma_leading(more, padding, a + 1);
        assert(more.skip(a + 1).len() == 0);
        lemma_trailing_is(more.skip(a + 1), padding);
        assert(strip(more, padding) =~= strip(s, padding));
    } else {
        assert(forall|j: int| 0 <= j < s.len() ==> more[j] == s[j]);
        lemma_leading(more, padding, a);
        let longer = more.skip(a);
        assert(longer == rest.push(c));
        assert(longer.drop_last() == rest);
        assert(trailing(longer, padding) == trailing(rest, padding) + 1);
        assert(strip(more, padding) =~= strip(s, padding));
    }
}

/// `s` without the padding at its two ends.
pub fn strip_chars(s: &Vec<char>, padding: Padding) -> (out: Vec<char>)
    ensures
        out@ == strip(s@, padding),
{
    let mut start: usize = 0;
    while start < s.len() && padding.holds(s[start])
        invariant
            start <= s.len(),
            forall|j: int| 0 <= j < start ==> padding.has(#[trigger] s@[j]),
        decreases s.len() - start,
    {
        start += 1;
    }
    let mut end: usize = s.len();
    while end > start && padding.holds(s[end - 1])
        invariant
            start <= end <= s.len(),
            forall|j: int| end <= j < s.len() ==> padding.has(#[trigger] s@[j]),
        decreases end,
    {
        end -= 1;
    }
    proof {
        lemma_leading(s@, padding, start as int);
        let rest = s@.skip(start as int);
        assert(forall|j: int| 0 <= j < rest.len() ==> rest[j] == s@[j + start]);
        lemma_trailing(rest, padding, s.len() - end);
        assert(rest.take(rest.len() - (s.len() - end)) == s@.subrange(start as int, end as int));
    }
    copy_range(s, start, end)
}

/// `s` without the white space at its two ends.
pub fn trim_chars(s: &Vec<char>) -> (out: Vec<char>)
    ensures
        out@ == trim(s@),
{
    strip_chars(s, Padding::WhiteSpace)
}

/// The lines among `ls` that differ from `line`, in their order.
pub open spec fn other_lines(ls: Seq<Seq<char>>, line: Seq<char>) -> Seq<Seq<char>>
    decreases ls.len(),
{
    if ls.len() == 0 {
        Seq::<Seq<char>>::empty()
    } else if ls.last() == line {
        other_lines(ls.drop_last(), line)
    } else {
        other_lines(ls.drop_last(), line).push(ls.last())
    }
}

/// How many of `ls` are `line`.
pub open spec fn occurrences(ls: Seq<Seq<char>>, line: Seq<char>) -> nat
    decreases ls.len(),
{
    if ls.len() == 0 {
        0
    } else if ls.last() == line {
        occurrences(ls.drop_last(), line) + 1
    } else {
        occurrences(ls.drop_last(), line)
    }
}

/// `content` without its lines that are `line`: the other lines, with a
/// newline between neighbours and none at the end.
pub open spec fn without_line(content: Seq<char>, line: Seq<char>) -> Seq<char> {
    join(other_lines(lines(content), line), '\n')
}

/// How many lines of `content` are `line`.
pub open spec fn line_count(content: Seq<char>, line: Seq<char>) -> nat {
    occurrences(lines(content), line)
}

/// Takes the lines that are `line` out of `content`, and counts them.
pub fn strike_line(content: &Vec<char>, line: &Vec<char>) -> (r: (Vec<char>, usize))
    ensures
        r.0@ == without_line(content@, line@),
        r.1 == line_count(content@, line@),
{
    let ls = line_chars(content);
    let mut kept: Vec<Vec<char>> = Vec::new();
    let mut struck: usize = 0;
    let mut i: usize = 0;
    while i < ls.len()
        invariant
            i <= ls.len(),
            views(kept@) == other_lines(views(ls@).take(i as int), line@),
            struck == occurrences(views(ls@).take(i as int), line@),
            struck <= i,
        decreases ls.len() - i,
    {
        let ghost upto = views(ls@).take(i + 1);
        assert(upto.drop_last() == views(ls@).take(i as int));
        assert(upto.last() == ls@[i as int]@);
        if same_chars(&ls[i], line) {
            struck += 1;
        } else {
            let ghost before = views(kept@);
            kept.push(copy_range(&ls[i], 0, ls[i].len()));
            assert(ls@[i as int]@.subrange(0, ls@[i as int]@.len() as int) == ls@[i as int]@);
            assert(views(kept@) == before.push(ls@[i as int]@));
        }
        i += 1;
    }
    assert(views(ls@).take(ls.len() as int) == views(ls@));
    (join_chars(&kept, '\n'), struck)
}

/// `content` without its lines that are `line`.
pub fn remove_line(content: &str, line: &str) -> (r: String)
    ensures
        r@ == without_line(content@, line@),
{
    let c = chars_of(content);
    let l = chars_of(line);
    let r = strike_line(&c, &l);
    string_of(&r.0)
}

/// The last piece of a split is empty exactly where the text is empty or
/// ends in the separator.
pub proof fn lemma_split_last(s: Seq<char>, sep: char)
    ensures
        split(s, sep).last().len() == 0 <==> s.len() == 0 || s.last() == sep,
{
    if s.len() > 0 {
        lemma_split_len(s.drop_last(), sep);
    }
}

/// Every line that is left when lines are taken out was a line before, and
/// none of them is the line that was taken out.
pub proof fn lemma_other_lines(ls: Seq<Seq<char>>, line: Seq<char>)
    ensures
        occurrences(other_lines(ls, line), line) == 0,
        forall|i: int|
            0 <= i < other_lines(ls, line).len() ==> ls.contains(#[trigger] other_lines(ls, line)[i]),
    decreases ls.len(),
{
    if ls.len() > 0 {
        let front = ls.drop_last();
        lemma_other_lines(front, line);
        let kept = other_lines(ls, line);
        assert forall|i: int| 0 <= i < kept.len() implies ls.contains(#[trigger] kept[i]) by {
            if i < other_lines(front, line).len() {
                let l = other_lines(front, line)[i];
                assert(kept[i] == l);
                assert(front.contains(l));
                let k = choose|k: int| 0 <= k < front.len() && front[k] == l;
                assert(ls[k] == l);
            } else {
                assert(kept[i] == ls[ls.len() - 1]);
            }
        }
        if ls.last() != line {
            assert(kept.drop_last() == other_lines(front, line));
        }
    }
}

/// A name stands among names as often as it occurs: at least once where
/// the names hold it, and not at all where they do not.
pub proof fn lemma_occurrences_contains(names: Seq<Seq<char>>, name: Seq<char>)
    ensures
        occurrences(names, name) > 0 <==> names.contains(name),
    decreases names.len(),
{
    if names.len() > 0 {
        let front = names.drop_last();
        lemma_occurrences_contains(front, name);
        if names.last() == name {
            assert(names[names.len() - 1] == name);
        } else {
            if names.contains(name) {
                let k = choose|k: int| 0 <= k < names.len() && names[k] == name;
                assert(front[k] == name);
            }
            if front.contains(name) {
                let k = choose|k: int| 0 <= k < front.len() && front[k] == name;
                assert(names[k] == name);
            }
        }
    }
}

/// A line that was taken out of a text is no line of what is written in
/// its place: the text without the line, and a newline. This holds of a
/// line that is not empty, and of a text that has no line made of that
/// line and a carriage return.
pub proof fn lemma_struck_line_is_gone(content: Seq<char>, line: Seq<char>)
    requires
        line.len() > 0,
        line_count(content, line.push('\r')) == 0,
    ensures
        line_count(without_line(content, line).push('\n'), line) == 0,
{
    let kept = other_lines(lines(content), line);
    lemma_other_lines(lines(content), line);
    lemma_lines_free(content);
    if kept.len() == 0 {
        let text = Seq::<char>::empty().push('\n');
        assert(without_line(content, line) == Seq::<char>::empty());
        assert(text.drop_last() == Seq::<char>::empty());
        assert(text.last() == '\n');
        assert(split(Seq::<char>::empty(), '\n') == seq![Seq::<char>::empty()]);
        assert(split(text, '\n') == split(text.drop_last(), '\n').push(Seq::<char>::empty()));
        assert(split(text, '\n') == seq![Seq::<char>::empty(), Seq::<char>::empty()]);
        let one = seq![Seq::<char>::empty()];
        assert(seq![Seq::<char>::empty(), Seq::<char>::empty()].drop_last() == one);
        assert(lines(text) == one);
        assert(one.drop_last() == Seq::<Seq<char>>::empty());
        assert(occurrences(one.drop_last(), line) == 0);
        assert(one.last().len() == 0);
    } else {
        assert forall|i: int| 0 <= i < kept.len() implies !(#[trigger] kept[i]).contains('\n') by {
            assert(lines(content).contains(kept[i]));
            let k = choose|k: int| 0 <= k < lines(content).len() && lines(content)[k] == kept[i];
        }
        lemma_lines_of_joined(kept);
        let after = stripped(kept);
        lemma_occurrences_contains(after, line);
        lemma_occurrences_contains(kept, line);
        lemma_occurrences_contains(lines(content), line.push('\r'));
        if after.contains(line) {
            let i = choose|i: int| 0 <= i < after.len() && after[i] == line;
            assert(lines(content).contains(kept[i]));
            if ends_in_cr(kept[i]) {
                assert(kept[i] == line.push('\r'));
            } else {
                assert(kept.contains(kept[i]));
            }
        }
    }
}

/// A text with one more line after it has the lines that it had and that
/// line, where the line holds no newline and does not end in a carriage
/// return.
pub proof fn lemma_lines_with_one_more(ended: Seq<char>, line: Seq<char>)
    requires
        ended.len() == 0 || ended.last() == '\n',
        !line.contains('\n'),
        !ends_in_cr(line),
    ensures
        lines((ended + line).push('\n')) == lines(ended).push(line),
{
    let text = (ended + line).push('\n');
    lemma_split_len(ended, '\n');
    lemma_split_last(ended, '\n');
    lemma_split_extend(ended, line, '\n');
    assert(text.drop_last() == ended + line);
    let pieces = split(ended, '\n');
    assert(split(ended + line, '\n') == pieces.drop_last().push(pieces.last() + line));
    assert(pieces.last() + line == line);
    let grown = pieces.drop_last().push(line);
    assert(split(text, '\n') == grown.push(Seq::<char>::empty()));
    assert(grown.push(Seq::<char>::empty()).drop_last() == grown);
    assert(stripped(grown) == stripped(pieces.drop_last()).push(line));
}

/// A line counts the same whether it ends in a newline or in a carriage
/// return and a newline: a text with one more line after it, ended by
/// both, has the lines that it had and that line.
pub proof fn lemma_lines_with_one_more_cr(ended: Seq<char>, line: Seq<char>)
    requires
        ended.len() == 0 || ended.last() == '\n',
        !line.contains('\n'),
        !ends_in_cr(line),
    ensures
        lines((ended + line.push('\r')).push('\n')) == lines(ended).push(line),
{
    let longer = line.push('\r');
    let text = (ended + longer).push('\n');
    assert(!longer.contains('\n')) by {
        if longer.contains('\n') {
            let k = choose|k: int| 0 <= k < longer.len() && longer[k] == '\n';
            assert(line[k] == '\n');
        }
    }
    lemma_split_len(ended, '\n');
    lemma_split_last(ended, '\n');
    lemma_split_extend(ended, longer, '\n');
    assert(text.drop_last() == ended + longer);
    let pieces = split(ended, '\n');
    assert(pieces.last() + longer == longer);
    let grown = pieces.drop_last().push(longer);
    assert(split(text, '\n') == grown.push(Seq::<char>::empty()));
    assert(grown.push(Seq::<char>::empty()).drop_last() == grown);
    assert(longer.drop_last() == line);
    assert(stripped(grown) == stripped(pieces.drop_last()).push(line));
}

/// A text that is made to end in a newline has the lines that it had,
/// where it did not end in a carriage return.
pub proof fn lemma_lines_of_ended(content: Seq<char>)
    requires
        content.len() > 0,
        content.last() != '\n',
        content.last() != '\r',
    ensures
        lines(content.push('\n')) == lines(content),
{
    lemma_split_len(content, '\n');
    lemma_split_len(content.drop_last(), '\n');
    lemma_split_last(content, '\n');
    let text = content.push('\n');
    let pieces = split(content, '\n');
    assert(text.drop_last() == content);
    assert(split(text, '\n') == pieces.push(Seq::<char>::empty()));
    assert(pieces.push(Seq::<char>::empty()).drop_last() == pieces);
    assert(pieces.last().last() == content.last());
    assert(stripped(pieces) == stripped(pieces.drop_last()).push(pieces.last()));
}

/// A join of two pieces or more ends as its last piece does, or in the
/// separator where that piece is empty.
pub proof fn lemma_join_last(parts: Seq<Seq<char>>, sep: char)
    requires
        parts.len() >= 2,
    ensures
        join(parts, sep).len() > 0,
        join(parts, sep).last() == if parts.last().len() == 0 {
            sep
        } else {
            parts.last().last()
        },
{
}

/// A join holds a character only where a piece holds it or it is the
/// separator.
pub proof fn lemma_join_free(parts: Seq<Seq<char>>, sep: char, c: char)
    requires
        c != sep,
        forall|i: int| 0 <= i < parts.len() ==> !(#[trigger] parts[i]).contains(c),
    ensures
        !join(parts, sep).contains(c),
    decreases parts.len(),
{
    if parts.len() == 0 {
    } else if parts.len() == 1 {
    } else {
        let front = parts.drop_last();
        assert(forall|i: int| 0 <= i < front.len() ==> front[i] == parts[i]);
        lemma_join_free(front, sep, c);
        let all = join(front, sep).push(sep) + parts.last();
        if all.contains(c) {
            let k = choose|k: int| 0 <= k < all.len() && all[k] == c;
            if k < join(front, sep).len() {
                assert(join(front, sep)[k] == c);
            } else if k > join(front, sep).len() {
                assert(parts.last()[k - join(front, sep).len() - 1] == c);
                assert(parts[parts.len() - 1].contains(c));
            }
        }
    }
}

} // verus!
