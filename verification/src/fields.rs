//! Texts made of fields: splitting, joining and lining up.
use crate::text;
use vstd::prelude::*;

verus! {

/// The pieces between the separators of a text. There is always at least one.
pub open spec fn pieces(s: Seq<char>, separator: char) -> Seq<Seq<char>>
    decreases s.len(),
{
    if s.len() == 0 {
        seq![Seq::empty()]
    } else {
        let front = pieces(s.drop_last(), separator);
        if s.last() == separator {
            front.push(Seq::empty())
        } else {
            front.drop_last().push(front.last().push(s.last()))
        }
    }
}

/// Pieces with a text between them.
pub open spec fn joined(parts: Seq<Seq<char>>, between: Seq<char>) -> Seq<char>
    decreases parts.len(),
{
    if parts.len() == 0 {
        Seq::empty()
    } else if parts.len() == 1 {
        parts[0]
    } else {
        joined(parts.drop_last(), between) + between + parts.last()
    }
}

/// The contents of texts.
pub open spec fn contents(parts: Seq<String>) -> Seq<Seq<char>> {
    parts.map_values(|p: String| p@)
}

/// What is split and put together again is the text it was.
pub proof fn pieces_join_back(s: Seq<char>, separator: char)
    ensures
        pieces(s, separator).len() > 0,
        joined(pieces(s, separator), seq![separator]) == s,
    decreases s.len(),
{
    if s.len() > 0 {
        let front = pieces(s.drop_last(), separator);
        let all = pieces(s, separator);
        pieces_join_back(s.drop_last(), separator);
        assert(s =~= s.drop_last().push(s.last()));
        if s.last() == separator {
            assert(all.drop_last() =~= front);
            assert(joined(all, seq![separator]) =~= s);
        } else {
            assert(all.drop_last() =~= front.drop_last());
            if front.len() == 1 {
                assert(joined(front, seq![separator]) == front[0]);
                assert(all[0] =~= s);
            } else {
                assert(joined(all, seq![separator]) =~= s);
            }
        }
    }
}

/// A piece holds no separator.
pub proof fn pieces_are_whole(s: Seq<char>, separator: char, i: int)
    requires
        0 <= i < pieces(s, separator).len(),
    ensures
        !pieces(s, separator)[i].contains(separator),
    decreases s.len(),
{
    if s.len() > 0 {
        let front = pieces(s.drop_last(), separator);
        pieces_join_back(s.drop_last(), separator);
        if i < pieces(s, separator).len() - 1 {
            pieces_are_whole(s.drop_last(), separator, i);
        } else if s.last() != separator {
            pieces_are_whole(s.drop_last(), separator, front.len() - 1);
        }
    }
}

/// A text without a separator is one piece.
pub proof fn one_piece(s: Seq<char>, separator: char)
    requires
        !s.contains(separator),
    ensures
        pieces(s, separator) == seq![s],
    decreases s.len(),
{
    if s.len() > 0 {
        let front = s.drop_last();
        assert(s[s.len() - 1] == s.last());
        assert forall|i: int| 0 <= i < front.len() implies front[i] != separator by {
            assert(s[i] == front[i]);
        }
        one_piece(front, separator);
        assert(front.push(s.last()) =~= s);
        assert(pieces(s, separator) =~= seq![s]);
    } else {
        assert(s =~= Seq::empty());
    }
}

/// A separator and a text without one add a piece.
pub proof fn one_more_piece(s: Seq<char>, separator: char, piece: Seq<char>)
    requires
        !piece.contains(separator),
    ensures
        pieces(s + seq![separator] + piece, separator) == pieces(s, separator).push(piece),
    decreases piece.len(),
{
    let whole = s + seq![separator] + piece;
    if piece.len() > 0 {
        let front = piece.drop_last();
        assert(piece[piece.len() - 1] == piece.last());
        assert forall|i: int| 0 <= i < front.len() implies front[i] != separator by {
            assert(piece[i] == front[i]);
        }
        one_more_piece(s, separator, front);
        assert(whole.drop_last() =~= s + seq![separator] + front);
        assert(front.push(piece.last()) =~= piece);
        let before = pieces(whole.drop_last(), separator);
        assert(before.drop_last() =~= pieces(s, separator));
    } else {
        assert(whole.drop_last() =~= s);
        assert(piece =~= Seq::empty());
    }
}

/// Texts without a separator that are put together with it between them split
/// into what they were.
pub proof fn joined_splits(parts: Seq<Seq<char>>, separator: char)
    requires
        parts.len() > 0,
        forall|i: int| 0 <= i < parts.len() ==> !(#[trigger] parts[i]).contains(separator),
    ensures
        pieces(joined(parts, seq![separator]), separator) == parts,
    decreases parts.len(),
{
    if parts.len() == 1 {
        one_piece(parts[0], separator);
        assert(seq![parts[0]] =~= parts);
    } else {
        let front = parts.drop_last();
        assert forall|i: int| 0 <= i < front.len() implies !(#[trigger] front[i]).contains(
            separator,
        ) by {
            assert(front[i] == parts[i]);
        }
        joined_splits(front, separator);
        one_more_piece(joined(front, seq![separator]), separator, parts.last());
        assert(front.push(parts.last()) =~= parts);
    }
}

/// The first parts, and one more.
pub proof fn joined_more(parts: Seq<Seq<char>>, between: Seq<char>, k: int)
    requires
        1 <= k < parts.len(),
    ensures
        joined(parts.take(k + 1), between) == joined(parts.take(k), between) + between + parts[k],
{
    assert(parts.take(k + 1).drop_last() =~= parts.take(k));
}

/// Split a text at every separator.
pub fn split(s: &str, separator: char) -> (parts: Vec<String>)
    ensures
        contents(parts@) == pieces(s@, separator),
{
    let n: usize = s.unicode_len();
    let mut parts: Vec<String> = Vec::new();
    let mut start: usize = 0;
    let mut i: usize = 0;
    assert(s@.take(0) =~= Seq::empty());
    while i < n
        invariant
            start <= i <= n,
            n == s@.len(),
            contents(parts@).push(s@.subrange(start as int, i as int)) == pieces(
                s@.take(i as int),
                separator,
            ),
        decreases n - i,
    {
        assert(s@.take(i + 1).drop_last() =~= s@.take(i as int));
        let ghost before = pieces(s@.take(i as int), separator);
        if s.get_char(i) == separator {
            let ghost done = contents(parts@);
            parts.push(text::owned(s.substring_char(start, i)));
            assert(contents(parts@) =~= done.push(s@.subrange(start as int, i as int)));
            start = i + 1;
            assert(s@.subrange(start as int, i + 1) =~= Seq::empty());
        } else {
            assert(before.last().push(s@[i as int]) =~= s@.subrange(start as int, i + 1));
            assert(before.drop_last() =~= contents(parts@));
        }
        i = i + 1;
    }
    assert(s@.take(n as int) =~= s@);
    let ghost done = contents(parts@);
    parts.push(text::owned(s.substring_char(start, n)));
    assert(contents(parts@) =~= done.push(s@.subrange(start as int, n as int)));
    parts
}

/// What stands ahead of the first separator and what stands behind it, where
/// there is one.
pub fn split_once(s: &str, separator: char) -> (r: Option<(String, String)>)
    ensures
        match r {
            Some((front, back)) => {
                &&& s@ == front@ + seq![separator] + back@
                &&& !front@.contains(separator)
            },
            None => !s@.contains(separator),
        },
{
    let n: usize = s.unicode_len();
    let mut i: usize = 0;
    while i < n
        invariant
            i <= n,
            n == s@.len(),
            forall|k: int| 0 <= k < i ==> s@[k] != separator,
        decreases n - i,
    {
        if s.get_char(i) == separator {
            let front: String = text::owned(s.substring_char(0, i));
            let back: String = text::owned(s.substring_char(i + 1, n));
            assert(s@ =~= front@ + seq![separator] + back@);
            return Some((front, back));
        }
        i = i + 1;
    }
    None
}

/// There is one way only to split a text at its first separator.
pub proof fn split_once_is_unique(
    a: Seq<char>,
    b: Seq<char>,
    c: Seq<char>,
    d: Seq<char>,
    separator: char,
)
    requires
        a + seq![separator] + b == c + seq![separator] + d,
        !a.contains(separator),
        !c.contains(separator),
    ensures
        a == c,
        b == d,
{
    let s = a + seq![separator] + b;
    let t = c + seq![separator] + d;
    if a.len() < c.len() {
        assert(s[a.len() as int] == separator);
        assert(t[a.len() as int] == c[a.len() as int]);
        assert(c.contains(separator));
    }
    if c.len() < a.len() {
        assert(t[c.len() as int] == separator);
        assert(s[c.len() as int] == a[c.len() as int]);
        assert(a.contains(separator));
    }
    assert forall|i: int| 0 <= i < a.len() implies a[i] == c[i] by {
        assert(s[i] == a[i] && t[i] == c[i]);
    }
    assert(a =~= c);
    assert(s.len() == a.len() + 1 + b.len() && t.len() == c.len() + 1 + d.len());
    assert forall|i: int| 0 <= i < b.len() implies b[i] == d[i] by {
        assert(s[a.len() + 1 + i] == b[i] && t[c.len() + 1 + i] == d[i]);
    }
    assert(b =~= d);
}

/// Put texts together with a text between them.
pub fn join(parts: &[String], between: &str) -> (s: String)
    ensures
        s@ == joined(contents(parts@), between@),
{
    let mut s: String = text::owned("");
    proof {
        reveal_strlit("");
    }
    let mut i: usize = 0;
    assert(contents(parts@.take(0)) =~= Seq::<Seq<char>>::empty());
    while i < parts.len()
        invariant
            i <= parts.len(),
            s@ == joined(contents(parts@.take(i as int)), between@),
        decreases parts.len() - i,
    {
        let ghost next = contents(parts@.take(i + 1));
        assert(next.drop_last() =~= contents(parts@.take(i as int)));
        assert(next.last() == parts@[i as int]@);
        if i > 0 {
            s.append(between);
        }
        let ghost before = s@;
        s.append(parts[i].as_str());
        i = i + 1;
        assert(s@ =~= joined(contents(parts@.take(i as int)), between@));
    }
    assert(parts@.take(i as int) =~= parts@);
    s
}

/// Whether a character occurs in a text.
pub fn has_char(s: &str, c: char) -> (b: bool)
    ensures
        b == s@.contains(c),
{
    let n: usize = s.unicode_len();
    let mut i: usize = 0;
    while i < n
        invariant
            i <= n,
            n == s@.len(),
            forall|k: int| 0 <= k < i ==> s@[k] != c,
        decreases n - i,
    {
        if s.get_char(i) == c {
            assert(s@[i as int] == c);
            return true;
        }
        i = i + 1;
    }
    false
}

/// Spaces, as many as a width has beyond a length.
pub open spec fn filling(len: nat, width: nat) -> Seq<char> {
    Seq::new(
        if width > len {
            (width - len) as nat
        } else {
            0
        },
        |i: int| ' ',
    )
}

/// A text at the right of a field.
pub open spec fn at_right(s: Seq<char>, width: nat) -> Seq<char> {
    filling(s.len(), width) + s
}

/// A text at the left of a field.
pub open spec fn at_left(s: Seq<char>, width: nat) -> Seq<char> {
    s + filling(s.len(), width)
}

fn push_filling(out: &mut String, len: usize, width: usize)
    ensures
        final(out)@ == old(out)@ + filling(len as nat, width as nat),
{
    proof {
        reveal_strlit(" ");
    }
    let mut i: usize = len;
    assert(out@ =~= old(out)@ + Seq::new(0, |i: int| ' '));
    while i < width
        invariant
            len <= i,
            i <= width || i == len,
            " "@ == seq![' '],
            out@ == old(out)@ + Seq::new((i - len) as nat, |i: int| ' '),
        decreases width - i,
    {
        out.append(" ");
        i = i + 1;
        assert(out@ =~= old(out)@ + Seq::new((i - len) as nat, |i: int| ' '));
    }
    assert(out@ =~= old(out)@ + filling(len as nat, width as nat));
}

/// Write a text at the right of a field.
pub fn push_right(out: &mut String, s: &str, width: usize)
    ensures
        final(out)@ == old(out)@ + at_right(s@, width as nat),
{
    push_filling(out, s.unicode_len(), width);
    out.append(s);
    assert(out@ =~= old(out)@ + at_right(s@, width as nat));
}

/// Write a text at the left of a field.
pub fn push_left(out: &mut String, s: &str, width: usize)
    ensures
        final(out)@ == old(out)@ + at_left(s@, width as nat),
{
    out.append(s);
    push_filling(out, s.unicode_len(), width);
    assert(out@ =~= old(out)@ + at_left(s@, width as nat));
}

/// Whether a text consists of digits.
pub open spec fn all_digits(s: Seq<char>) -> bool {
    forall|i: int| 0 <= i < s.len() ==> '0' <= #[trigger] s[i] <= '9'
}

/// The number that digits stand for.
pub open spec fn number_of(s: Seq<char>) -> nat
    decreases s.len(),
{
    if s.len() == 0 {
        0
    } else {
        10 * number_of(s.drop_last()) + (s.last() as nat - '0' as nat) as nat
    }
}

/// The digits of a count: a plus sign may stand ahead of them.
pub open spec fn digits_of(s: Seq<char>) -> Seq<char> {
    if s.len() > 0 && s[0] == '+' {
        s.skip(1)
    } else {
        s
    }
}

/// The count that a text stands for: digits, at least one, of a number that
/// fits.
pub open spec fn count_spec(s: Seq<char>) -> Option<usize> {
    let d = digits_of(s);
    if d.len() > 0 && all_digits(d) && number_of(d) <= usize::MAX {
        Some(number_of(d) as usize)
    } else {
        None
    }
}

/// A longer number is no smaller.
proof fn number_grows(s: Seq<char>, i: int)
    requires
        0 <= i <= s.len(),
        all_digits(s),
    ensures
        number_of(s.take(i)) <= number_of(s),
    decreases s.len() - i,
{
    if i < s.len() {
        number_grows(s, i + 1);
        assert(s.take(i + 1).drop_last() =~= s.take(i));
        assert('0' <= s[i]);
    } else {
        assert(s.take(i) =~= s);
    }
}

/// Read a count.
pub fn parse_count(s: &str) -> (r: Option<usize>)
    ensures
        r == count_spec(s@),
{
    let n: usize = s.unicode_len();
    let start: usize = if n > 0 && s.get_char(0) == '+' {
        1
    } else {
        0
    };
    let ghost d = digits_of(s@);
    assert(d =~= s@.skip(start as int));
    if start == n {
        return None;
    }
    let mut i: usize = start;
    let mut value: usize = 0;
    assert(d.take(0) =~= Seq::empty());
    while i < n
        invariant
            start <= i <= n,
            start <= 1,
            n == s@.len(),
            d == s@.skip(start as int),
            d == digits_of(s@),
            forall|k: int| 0 <= k < i - start ==> '0' <= #[trigger] d[k] <= '9',
            value == number_of(d.take(i - start)),
        decreases n - i,
    {
        let c: char = s.get_char(i);
        assert(c == d[i - start]);
        if c < '0' || c > '9' {
            assert(!all_digits(d));
            return None;
        }
        let digit: usize = c as usize - '0' as usize;
        assert(d.take(i + 1 - start).drop_last() =~= d.take(i - start));
        proof {
            if all_digits(d) {
                number_grows(d, i + 1 - start);
            }
        }
        if value > (usize::MAX - digit) / 10 {
            assert(10 * value + digit > usize::MAX);
            return None;
        }
        value = 10 * value + digit;
        i = i + 1;
    }
    assert(d.take(n - start) =~= d);
    Some(value)
}

} // verus!
