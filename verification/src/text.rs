//! Characters and lines of text.

use vstd::prelude::*;

verus! {

/// Every character of `s`, in order.
pub fn chars_of(s: &str) -> (r: Vec<char>)
    ensures
        r@ == s@,
{
    let mut v: Vec<char> = Vec::new();
    for c in it: s.chars()
        invariant
            v@ == it.seq().take(it.index()),
    {
        v.push(c);
    }
    v
}


/// The Unicode `White_Space` characters: what `\s` matches in a Unicode-aware
/// regular expression, and what `\S` does not.
pub open spec fn is_white_space(c: char) -> bool {
    ||| ('\t' <= c && c <= '\r')
    ||| c == ' '
    ||| c == '\u{85}'
    ||| c == '\u{a0}'
    ||| c == '\u{1680}'
    ||| ('\u{2000}' <= c && c <= '\u{200a}')
    ||| c == '\u{2028}'
    ||| c == '\u{2029}'
    ||| c == '\u{202f}'
    ||| c == '\u{205f}'
    ||| c == '\u{3000}'
}

/// Whether `c` is a Unicode `White_Space` character.
pub fn white_space(c: char) -> (r: bool)
    ensures
        r == is_white_space(c),
{
    ('\t' <= c && c <= '\r') || c == ' ' || c == '\u{85}' || c == '\u{a0}' || c == '\u{1680}'
        || ('\u{2000}' <= c && c <= '\u{200a}') || c == '\u{2028}' || c == '\u{2029}'
        || c == '\u{202f}' || c == '\u{205f}' || c == '\u{3000}'
}

/// The pieces of `s` between newline characters, in order. A text with `n`
/// newlines has `n + 1` pieces; none of them holds a newline.
pub open spec fn newline_pieces(s: Seq<char>) -> Seq<Seq<char>>
    decreases s.len(),
{
    if s.len() == 0 {
        seq![Seq::<char>::empty()]
    } else {
        let p = newline_pieces(s.drop_last());
        if s.last() == '\n' {
            p.push(Seq::<char>::empty())
        } else {
            p.update(p.len() - 1, p.last().push(s.last()))
        }
    }
}

/// A line that a newline ended loses one carriage return right before it.
pub open spec fn strip_cr(l: Seq<char>) -> Seq<char> {
    if l.len() > 0 && l.last() == '\r' {
        l.drop_last()
    } else {
        l
    }
}

/// The lines of a text as a buffered reader hands them out one by one:
/// split at each newline, a carriage return before a newline dropped, and
/// no empty line after a final newline.
pub open spec fn lines_of(s: Seq<char>) -> Seq<Seq<char>> {
    let p = newline_pieces(s);
    let ended = p.drop_last().map_values(|l: Seq<char>| strip_cr(l));
    if p.last().len() == 0 {
        ended
    } else {
        ended.push(p.last())
    }
}

/// A text always has at least one piece.
pub proof fn lemma_newline_pieces_len(s: Seq<char>)
    ensures
        newline_pieces(s).len() >= 1,
    decreases s.len(),
{
    if s.len() > 0 {
        lemma_newline_pieces_len(s.drop_last());
    }
}

/// A text without newlines is one piece.
pub proof fn lemma_pieces_without_newline(a: Seq<char>)
    requires
        forall|i: int| 0 <= i < a.len() ==> #[trigger] a[i] != '\n',
    ensures
        newline_pieces(a) == seq![a],
    decreases a.len(),
{
    if a.len() == 0 {
        assert(a =~= Seq::<char>::empty());
    } else {
        assert forall|i: int| 0 <= i < a.drop_last().len() implies #[trigger] a.drop_last()[i] != '\n' by {
            assert(a.drop_last()[i] == a[i]);
        }
        lemma_pieces_without_newline(a.drop_last());
        assert(a.last() == a[a.len() - 1]);
        assert(a.drop_last().push(a.last()) =~= a);
        assert(seq![a.drop_last()].update(0, a.drop_last().push(a.last())) =~= seq![a]);
    }
}

/// A newline at the end of a text starts an empty last piece.
pub proof fn lemma_pieces_push_newline(s: Seq<char>)
    ensures
        newline_pieces(s.push('\n')) == newline_pieces(s).push(Seq::<char>::empty()),
{
    assert(s.push('\n').drop_last() =~= s);
}

/// Text without newlines added at the end of a text extends its last piece.
pub proof fn lemma_pieces_append(s: Seq<char>, b: Seq<char>)
    requires
        forall|i: int| 0 <= i < b.len() ==> #[trigger] b[i] != '\n',
    ensures
        newline_pieces(s + b) == newline_pieces(s).update(
            newline_pieces(s).len() - 1,
            newline_pieces(s).last() + b,
        ),
    decreases b.len(),
{
    lemma_newline_pieces_len(s);
    let p = newline_pieces(s);
    if b.len() == 0 {
        assert(s + b =~= s);
        assert(p.last() + b =~= p.last());
        assert(p.update(p.len() - 1, p.last() + b) =~= p);
    } else {
        let b0 = b.drop_last();
        lemma_pieces_append(s, b0);
        assert((s + b).drop_last() =~= s + b0);
        assert((s + b).last() == b.last());
        assert(b.last() == b[b.len() - 1]);
        let q = newline_pieces(s + b0);
        assert(q.len() == p.len());
        assert(q.last() == p.last() + b0);
        assert(p.last() + b0 + seq![b.last()] =~= p.last() + b);
        assert(q.last().push(b.last()) =~= p.last() + b);
        assert(q.update(q.len() - 1, q.last().push(b.last())) =~= p.update(p.len() - 1, p.last() + b));
    }
}

/// A first piece ended by a newline comes before the pieces of the rest.
proof fn lemma_pieces_cons(a: Seq<char>, s: Seq<char>)
    requires
        forall|i: int| 0 <= i < a.len() ==> #[trigger] a[i] != '\n',
    ensures
        newline_pieces(a.push('\n') + s) == seq![a] + newline_pieces(s),
    decreases s.len(),
{
    lemma_pieces_without_newline(a);
    lemma_pieces_push_newline(a);
    if s.len() == 0 {
        assert(a.push('\n') + s =~= a.push('\n'));
        assert(newline_pieces(s) =~= seq![Seq::<char>::empty()]);
        assert(seq![a].push(Seq::<char>::empty()) =~= seq![a] + seq![Seq::<char>::empty()]);
    } else {
        let t = s.drop_last();
        let c = s.last();
        lemma_pieces_cons(a, t);
        lemma_newline_pieces_len(t);
        assert((a.push('\n') + s).drop_last() =~= a.push('\n') + t);
        assert((a.push('\n') + s).last() == c);
        let p = newline_pieces(t);
        let q = seq![a] + p;
        if c == '\n' {
            assert(q.push(Seq::<char>::empty()) =~= seq![a] + p.push(Seq::<char>::empty()));
        } else {
            assert(q.last() == p.last());
            assert(q.update(q.len() - 1, q.last().push(c)) =~= seq![a] + p.update(
                p.len() - 1,
                p.last().push(c),
            ));
        }
    }
}

/// Splitting loses no line: a text that starts with a line ended by a
/// newline has that line, without a carriage return before the newline,
/// followed by the lines of the rest, however many there are.
pub proof fn law_lines_cons(a: Seq<char>, s: Seq<char>)
    requires
        forall|i: int| 0 <= i < a.len() ==> #[trigger] a[i] != '\n',
    ensures
        lines_of(a.push('\n') + s) == seq![strip_cr(a)] + lines_of(s),
{
    lemma_pieces_cons(a, s);
    lemma_newline_pieces_len(s);
    let p = newline_pieces(s);
    let q = seq![a] + p;
    assert(q.last() == p.last());
    assert(q.drop_last() =~= seq![a] + p.drop_last());
    assert(q.drop_last().map_values(|l: Seq<char>| strip_cr(l)) =~= seq![strip_cr(a)] + p.drop_last().map_values(
        |l: Seq<char>| strip_cr(l),
    ));
    if p.last().len() == 0 {
        assert(lines_of(a.push('\n') + s) =~= seq![strip_cr(a)] + lines_of(s));
    } else {
        assert((seq![strip_cr(a)] + p.drop_last().map_values(|l: Seq<char>| strip_cr(l))).push(p.last())
            =~= seq![strip_cr(a)] + p.drop_last().map_values(|l: Seq<char>| strip_cr(l)).push(p.last()));
    }
}

/// A text without newlines is one line, kept whole; an empty text has none.
pub proof fn law_lines_last(a: Seq<char>)
    requires
        forall|i: int| 0 <= i < a.len() ==> #[trigger] a[i] != '\n',
    ensures
        a.len() > 0 ==> lines_of(a) == seq![a],
        a.len() == 0 ==> lines_of(a) == Seq::<Seq<char>>::empty(),
{
    lemma_pieces_without_newline(a);
    assert(seq![a].drop_last() =~= Seq::<Seq<char>>::empty());
    assert(Seq::<Seq<char>>::empty().map_values(|l: Seq<char>| strip_cr(l)) =~= Seq::<Seq<char>>::empty());
    assert(Seq::<Seq<char>>::empty().push(a) =~= seq![a]);
}

/// Only one carriage return, right at the end of a line, is dropped; a line
/// that does not end with one is kept as it is.
pub proof fn law_strip_cr(a: Seq<char>)
    ensures
        strip_cr(a.push('\r')) == a,
        a.len() == 0 || a.last() != '\r' ==> strip_cr(a) == a,
{
    assert(a.push('\r').drop_last() =~= a);
}

/// The lines of `content`, each without its line ending.
pub fn split_lines(content: &str) -> (lines: Vec<String>)
    ensures
        lines@.map_values(|l: String| l@) == lines_of(content@),
{
    let chars = chars_of(content);
    let n: usize = chars.len();
    let mut lines: Vec<String> = Vec::new();
    let mut start: usize = 0;
    let mut i: usize = 0;
    proof {
        assert(content@.take(0) =~= Seq::<char>::empty());
    }
    while i < n
        invariant
            chars@ == content@,
            n == chars@.len(),
            start <= i <= n,
            newline_pieces(content@.take(i as int)).len() >= 1,
            newline_pieces(content@.take(i as int)).last() == content@.subrange(start as int, i as int),
            lines@.map_values(|l: String| l@) == newline_pieces(content@.take(i as int)).drop_last().map_values(
                |l: Seq<char>| strip_cr(l),
            ),
        decreases n - i,
    {
        let ghost before = content@.take(i as int);
        let ghost old_lines = lines@;
        proof {
            assert(content@.take(i + 1).drop_last() =~= before);
            assert(content@.take(i + 1).last() == content@[i as int]);
            lemma_newline_pieces_len(before);
        }
        if chars[i] == '\n' {
            let end: usize = if i > start && chars[i - 1] == '\r' {
                i - 1
            } else {
                i
            };
            let piece = content.substring_char(start, end);
            let line = piece.to_owned();
            lines.push(line);
            proof {
                let p = newline_pieces(before);
                let q = newline_pieces(content@.take(i + 1));
                assert(q == p.push(Seq::<char>::empty()));
                assert(q.drop_last() =~= p);
                assert(strip_cr(p.last()) =~= content@.subrange(start as int, end as int));
                assert(lines@.map_values(|l: String| l@) =~= old_lines.map_values(|l: String| l@).push(
                    content@.subrange(start as int, end as int),
                ));
                assert(q.drop_last().map_values(|l: Seq<char>| strip_cr(l)) =~= p.drop_last().map_values(
                    |l: Seq<char>| strip_cr(l),
                ).push(strip_cr(p.last())));
                assert(content@.subrange(i + 1, i + 1) =~= Seq::<char>::empty());
            }
            start = i + 1;
        } else {
            proof {
                let p = newline_pieces(before);
                let q = newline_pieces(content@.take(i + 1));
                assert(q.drop_last() =~= p.drop_last());
                assert(q.last() =~= content@.subrange(start as int, i + 1));
            }
        }
        i = i + 1;
    }
    proof {
        assert(content@.take(n as int) =~= content@);
    }
    if start < n {
        let piece = content.substring_char(start, n);
        let line = piece.to_owned();
        let ghost old_lines = lines@;
        lines.push(line);
        proof {
            assert(lines@.map_values(|l: String| l@) =~= old_lines.map_values(|l: String| l@).push(
                content@.subrange(start as int, n as int),
            ));
        }
    }
    lines
}


/// Whether two texts are the same.
pub fn str_equal(a: &str, b: &str) -> (r: bool)
    ensures
        r == (a@ == b@),
{
    let x = chars_of(a);
    let y = chars_of(b);
    if x.len() != y.len() {
        return false;
    }
    let mut i: usize = 0;
    while i < x.len()
        invariant
            x@ == a@,
            y@ == b@,
            x@.len() == y@.len(),
            i <= x@.len(),
            forall|j: int| 0 <= j < i ==> x@[j] == y@[j],
        decreases x.len() - i,
    {
        if x[i] != y[i] {
            return false;
        }
        i = i + 1;
    }
    proof {
        assert(a@ =~= b@);
    }
    true
}

} // verus!
