//! Text as sequences of characters: byte widths and line splitting.
use vstd::prelude::*;
use vstd::utf8::*;

verus! {

/// Number of bytes that `c` takes in UTF-8.
pub open spec fn char_width(c: char) -> nat {
    let v = c as u32;
    if v < 0x80 {
        1
    } else if v < 0x800 {
        2
    } else if v < 0x10000 {
        3
    } else {
        4
    }
}

/// Number of bytes that `s` takes in UTF-8: the sum of the widths of its characters.
pub open spec fn byte_width(s: Seq<char>) -> nat
    decreases s.len(),
{
    if s.len() == 0 {
        0
    } else {
        byte_width(s.drop_last()) + char_width(s.last())
    }
}

/// A line without the carriage return that may end it.
pub open spec fn strip_cr(line: Seq<char>) -> Seq<char> {
    if line.len() > 0 && line.last() == '\r' {
        line.drop_last()
    } else {
        line
    }
}

/// The lines that a line feed has closed in `s`, in order.
pub open spec fn closed_lines(s: Seq<char>) -> Seq<Seq<char>>
    decreases s.len(),
{
    if s.len() == 0 {
        Seq::empty()
    } else if s.last() == '\n' {
        closed_lines(s.drop_last()).push(strip_cr(open_line(s.drop_last())))
    } else {
        closed_lines(s.drop_last())
    }
}

/// What follows the last line feed of `s`.
pub open spec fn open_line(s: Seq<char>) -> Seq<char>
    decreases s.len(),
{
    if s.len() == 0 || s.last() == '\n' {
        Seq::empty()
    } else {
        open_line(s.drop_last()).push(s.last())
    }
}

/// The lines of `s`. A line feed ends a line, and a carriage return directly before
/// it belongs to the line ending. What follows the last line feed is a line of its
/// own, kept as it stands, unless it is empty.
pub open spec fn lines_of(s: Seq<char>) -> Seq<Seq<char>> {
    if open_line(s).len() > 0 {
        closed_lines(s).push(open_line(s))
    } else {
        closed_lines(s)
    }
}

/// The greatest byte width among `rows`, 0 where there is none.
pub open spec fn max_width(rows: Seq<Seq<char>>) -> nat
    decreases rows.len(),
{
    if rows.len() == 0 {
        0
    } else {
        let rest = max_width(rows.drop_last());
        let last = byte_width(rows.last());
        if last > rest {
            last
        } else {
            rest
        }
    }
}

/// The rows joined again, each closed by a line feed.
pub open spec fn unlines(rows: Seq<Seq<char>>) -> Seq<char>
    decreases rows.len(),
{
    if rows.len() == 0 {
        Seq::empty()
    } else {
        unlines(rows.drop_last()) + rows.last().push('\n')
    }
}

/// What a vector of rows holds.
pub open spec fn rows_view(rows: Vec<Vec<char>>) -> Seq<Seq<char>> {
    rows@.map_values(|row: Vec<char>| row@)
}

/// Appending a character adds its width.
pub proof fn lemma_byte_width_push(s: Seq<char>, c: char)
    ensures
        byte_width(s.push(c)) == byte_width(s) + char_width(c),
{
    assert(s.push(c).drop_last() =~= s);
}

/// Every character takes at least one byte.
pub proof fn lemma_byte_width_at_least_len(s: Seq<char>)
    ensures
        s.len() <= byte_width(s),
    decreases s.len(),
{
    if s.len() > 0 {
        lemma_byte_width_at_least_len(s.drop_last());
    }
}

/// A prefix is no wider than the whole.
pub proof fn lemma_byte_width_prefix(s: Seq<char>, n: int)
    requires
        0 <= n <= s.len(),
    ensures
        byte_width(s.take(n)) <= byte_width(s),
    decreases s.len(),
{
    if n == s.len() {
        assert(s.take(n) =~= s);
    } else {
        lemma_byte_width_prefix(s.drop_last(), n);
        assert(s.drop_last().take(n) =~= s.take(n));
    }
}

/// The byte width is the length of the UTF-8 encoding.
pub proof fn lemma_byte_width_encoded(s: Seq<char>)
    ensures
        byte_width(s) == encode_utf8(s).len(),
    decreases s.len(),
{
    if s.len() > 0 {
        let c = s.last();
        let init = s.drop_last();
        lemma_byte_width_encoded(init);
        lemma_encoded_push(init, c);
        assert(init.push(c) =~= s);
    }
}

proof fn lemma_encoded_push(s: Seq<char>, c: char)
    ensures
        encode_utf8(s.push(c)).len() == encode_utf8(s).len() + char_width(c),
    decreases s.len(),
{
    broadcast use char_is_scalar;

    if s.len() == 0 {
        assert(s.push(c).drop_first() =~= Seq::<char>::empty());
        assert(encode_utf8(s.push(c).drop_first()).len() == 0);
        assert(encode_scalar(c as u32).len() == char_width(c));
    } else {
        lemma_encoded_push(s.drop_first(), c);
        assert(s.push(c).drop_first() =~= s.drop_first().push(c));
        assert(s.push(c)[0] == s[0]);
    }
}

/// No line is wider than the text it was cut from.
pub proof fn lemma_lines_within(s: Seq<char>)
    ensures
        byte_width(open_line(s)) <= byte_width(s),
        forall|j: int| 0 <= j < closed_lines(s).len() ==> byte_width(#[trigger] closed_lines(s)[j]) <= byte_width(s),
        forall|j: int| 0 <= j < lines_of(s).len() ==> byte_width(#[trigger] lines_of(s)[j]) <= byte_width(s),
    decreases s.len(),
{
    if s.len() > 0 {
        let init = s.drop_last();
        let before = closed_lines(init);
        lemma_lines_within(init);
        assert(byte_width(s) == byte_width(init) + char_width(s.last()));
        if s.last() == '\n' {
            let line = open_line(init);
            assert(byte_width(strip_cr(line)) <= byte_width(line));
            assert(closed_lines(s) == before.push(strip_cr(line)));
            assert forall|j: int| 0 <= j < closed_lines(s).len() implies byte_width(#[trigger] closed_lines(s)[j]) <= byte_width(s) by {
                if j < before.len() {
                    assert(closed_lines(s)[j] == before[j]);
                }
            }
        } else {
            lemma_byte_width_push(open_line(init), s.last());
            assert(closed_lines(s) == before);
            assert forall|j: int| 0 <= j < closed_lines(s).len() implies byte_width(#[trigger] closed_lines(s)[j]) <= byte_width(s) by {
                assert(closed_lines(s)[j] == before[j]);
            }
        }
    }
    assert forall|j: int| 0 <= j < lines_of(s).len() implies byte_width(#[trigger] lines_of(s)[j]) <= byte_width(s) by {
        if j < closed_lines(s).len() {
            assert(lines_of(s)[j] == closed_lines(s)[j]);
        }
    }
}

/// Only the empty text has no lines.
pub proof fn lemma_no_lines(s: Seq<char>)
    ensures
        lines_of(s).len() == 0 <==> s.len() == 0,
{
    if s.len() > 0 {
        if s.last() != '\n' {
            assert(open_line(s).len() > 0);
        }
    }
}

/// Whether `s` is made of lines that each end in a line feed, with no carriage
/// return before it.
pub open spec fn is_block(s: Seq<char>) -> bool {
    &&& s.len() > 0 ==> s.last() == '\n'
    &&& forall|i: int| 0 < i < s.len() && s[i] == '\n' ==> #[trigger] s[i - 1] != '\r'
}

/// A text holds its closed lines, each with its line feed, and then its open line.
pub proof fn lemma_lines_rejoin(s: Seq<char>)
    requires
        forall|i: int| 0 < i < s.len() && s[i] == '\n' ==> #[trigger] s[i - 1] != '\r',
    ensures
        unlines(closed_lines(s)) + open_line(s) == s,
    decreases s.len(),
{
    if s.len() == 0 {
        assert(unlines(closed_lines(s)) + open_line(s) =~= s);
    } else {
        let init = s.drop_last();
        assert forall|i: int| 0 < i < init.len() && init[i] == '\n' implies #[trigger] init[i - 1] != '\r' by {
            assert(init[i] == s[i]);
            assert(init[i - 1] == s[i - 1]);
        }
        lemma_lines_rejoin(init);
        let line = open_line(init);
        if s.last() == '\n' {
            if line.len() > 0 {
                lemma_open_line_suffix(init);
                assert(line.last() == init.last());
                assert(init.last() == s[s.len() - 2]);
                assert(s[s.len() - 1] == '\n');
            }
            assert(strip_cr(line) == line);
            assert(closed_lines(s).drop_last() =~= closed_lines(init));
            assert(unlines(closed_lines(s)) + open_line(s) =~= (unlines(closed_lines(init)) + line).push('\n'));
            assert(init.push('\n') =~= s);
        } else {
            assert(unlines(closed_lines(s)) + open_line(s) =~= (unlines(closed_lines(init)) + line).push(s.last()));
            assert(init.push(s.last()) =~= s);
        }
    }
}

/// An open line that is not empty ends where the text ends.
proof fn lemma_open_line_suffix(s: Seq<char>)
    ensures
        open_line(s).len() > 0 ==> s.len() > 0 && open_line(s).last() == s.last(),
{
}

/// A block is its lines, each closed by a line feed.
pub proof fn lemma_block_lines(s: Seq<char>)
    requires
        is_block(s),
    ensures
        unlines(lines_of(s)) == s,
{
    lemma_lines_rejoin(s);
    assert(open_line(s).len() == 0);
    assert(unlines(closed_lines(s)) + open_line(s) =~= unlines(closed_lines(s)));
}

/// Whether `s` is free of line feeds.
pub open spec fn has_no_line_feed(s: Seq<char>) -> bool {
    forall|i: int| 0 <= i < s.len() ==> #[trigger] s[i] != '\n'
}

/// How many line feeds `s` holds: as many as lines that a line feed has closed.
pub open spec fn line_feeds(s: Seq<char>) -> nat {
    closed_lines(s).len()
}

/// The line feeds of two texts in a row are those of the one and of the other.
pub proof fn lemma_line_feeds_concat(a: Seq<char>, b: Seq<char>)
    ensures
        line_feeds(a + b) == line_feeds(a) + line_feeds(b),
    decreases b.len(),
{
    if b.len() == 0 {
        assert(a + b =~= a);
    } else {
        lemma_line_feeds_concat(a, b.drop_last());
        assert((a + b).drop_last() =~= a + b.drop_last());
        assert((a + b).last() == b.last());
    }
}

/// A text that is free of line feeds is one open line.
pub proof fn lemma_no_line_feed(s: Seq<char>)
    requires
        has_no_line_feed(s),
    ensures
        line_feeds(s) == 0,
        open_line(s) == s,
    decreases s.len(),
{
    if s.len() > 0 {
        assert(s.last() == s[s.len() - 1]);
        assert forall|i: int| 0 <= i < s.drop_last().len() implies #[trigger] s.drop_last()[i] != '\n' by {
            assert(s.drop_last()[i] == s[i]);
        }
        lemma_no_line_feed(s.drop_last());
        assert(s.drop_last().push(s.last()) =~= s);
    } else {
        assert(open_line(s) =~= s);
    }
}

/// No line holds a line feed.
pub proof fn lemma_lines_hold_no_line_feed(s: Seq<char>)
    ensures
        has_no_line_feed(open_line(s)),
        forall|j: int| 0 <= j < closed_lines(s).len() ==> has_no_line_feed(#[trigger] closed_lines(s)[j]),
        forall|j: int| 0 <= j < lines_of(s).len() ==> has_no_line_feed(#[trigger] lines_of(s)[j]),
    decreases s.len(),
{
    if s.len() > 0 {
        let init = s.drop_last();
        let before = closed_lines(init);
        lemma_lines_hold_no_line_feed(init);
        if s.last() == '\n' {
            let line = open_line(init);
            assert(has_no_line_feed(strip_cr(line))) by {
                assert forall|i: int| 0 <= i < strip_cr(line).len() implies #[trigger] strip_cr(line)[i] != '\n' by {
                    assert(strip_cr(line)[i] == line[i]);
                }
            }
            assert forall|j: int| 0 <= j < closed_lines(s).len() implies has_no_line_feed(
                #[trigger] closed_lines(s)[j],
            ) by {
                if j < before.len() {
                    assert(closed_lines(s)[j] == before[j]);
                }
            }
        } else {
            assert forall|j: int| 0 <= j < closed_lines(s).len() implies has_no_line_feed(
                #[trigger] closed_lines(s)[j],
            ) by {
                assert(closed_lines(s)[j] == before[j]);
            }
        }
    }
    assert forall|j: int| 0 <= j < lines_of(s).len() implies has_no_line_feed(#[trigger] lines_of(s)[j]) by {
        if j < closed_lines(s).len() {
            assert(lines_of(s)[j] == closed_lines(s)[j]);
        }
    }
}

/// A text that ends in a line feed, or is empty, has as many lines as line feeds.
pub proof fn lemma_closed_text(s: Seq<char>)
    requires
        s.len() > 0 ==> s.last() == '\n',
    ensures
        lines_of(s).len() == line_feeds(s),
{
}

/// Rows that are free of line feeds, each closed by one, hold as many line feeds
/// as there are rows.
pub proof fn lemma_unlines_line_feeds(rows: Seq<Seq<char>>)
    requires
        forall|r: int| 0 <= r < rows.len() ==> has_no_line_feed(#[trigger] rows[r]),
    ensures
        line_feeds(unlines(rows)) == rows.len(),
        rows.len() > 0 ==> unlines(rows).len() > 0 && unlines(rows).last() == '\n',
    decreases rows.len(),
{
    if rows.len() > 0 {
        let init = rows.drop_last();
        assert forall|r: int| 0 <= r < init.len() implies has_no_line_feed(#[trigger] init[r]) by {
            assert(init[r] == rows[r]);
        }
        lemma_unlines_line_feeds(init);
        lemma_row_line_feed(rows.last());
        lemma_line_feeds_concat(unlines(init), rows.last().push('\n'));
    }
}

/// A row that is free of line feeds and closed by one holds one line feed.
pub proof fn lemma_row_line_feed(row: Seq<char>)
    requires
        has_no_line_feed(row),
    ensures
        line_feeds(row.push('\n')) == 1,
{
    lemma_no_line_feed(row);
    assert(row.push('\n').drop_last() =~= row);
}

/// After a text that ends in a line feed, or is empty, a text that ends in a
/// line feed adds as many lines as it holds line feeds.
pub proof fn lemma_lines_after_closed(a: Seq<char>, b: Seq<char>)
    requires
        a.len() > 0 ==> a.last() == '\n',
        b.len() > 0,
        b.last() == '\n',
    ensures
        lines_of(a + b).len() == lines_of(a).len() + line_feeds(b),
        (a + b).last() == '\n',
{
    lemma_line_feeds_concat(a, b);
    lemma_closed_text(a);
    lemma_closed_text(a + b);
}

/// After a text that ends in a line feed, or is empty, the open line is that of
/// what follows, and the last line of the whole is the last line of what follows.
pub proof fn lemma_last_line_after_closed(a: Seq<char>, b: Seq<char>)
    requires
        a.len() > 0 ==> a.last() == '\n',
    ensures
        open_line(a + b) == open_line(b),
        b.len() > 0 && b.last() == '\n' ==> lines_of(a + b).len() > 0 && lines_of(a + b).last() == strip_cr(
            open_line(b.drop_last()),
        ),
    decreases b.len(),
{
    if b.len() == 0 {
        assert(a + b =~= a);
    } else {
        lemma_last_line_after_closed(a, b.drop_last());
        assert((a + b).drop_last() =~= a + b.drop_last());
        assert((a + b).last() == b.last());
    }
}

/// The greatest width is the width of a row, and no row is wider.
pub proof fn lemma_max_width(rows: Seq<Seq<char>>)
    ensures
        forall|j: int| 0 <= j < rows.len() ==> byte_width(#[trigger] rows[j]) <= max_width(rows),
        rows.len() > 0 ==> exists|j: int| 0 <= j < rows.len() && byte_width(#[trigger] rows[j]) == max_width(rows),
        rows.len() == 0 ==> max_width(rows) == 0,
    decreases rows.len(),
{
    if rows.len() > 0 {
        let init = rows.drop_last();
        lemma_max_width(init);
        if byte_width(rows.last()) > max_width(init) {
            assert(byte_width(rows[rows.len() - 1]) == max_width(rows));
        } else if init.len() > 0 {
            let j = choose|j: int| 0 <= j < init.len() && byte_width(#[trigger] init[j]) == max_width(init);
            assert(rows[j] == init[j]);
        } else {
            assert(byte_width(rows[rows.len() - 1]) == max_width(rows));
        }
        assert forall|j: int| 0 <= j < rows.len() implies byte_width(#[trigger] rows[j]) <= max_width(rows) by {
            if j < init.len() {
                assert(rows[j] == init[j]);
            }
        }
    }
}

/// The characters of `s`, in order.
pub fn chars_of(s: &str) -> (out: Vec<char>)
    ensures
        out@ == s@,
{
    let mut out: Vec<char> = Vec::new();
    for c in it: s.chars()
        invariant
            it.seq() == s@,
            out@ == it.seq().take(it.index() as int),
    {
        out.push(c);
    }
    out
}

/// A string of the characters of `chars`, in order. Trusted: collecting an
/// iterator of `char` into a `String` (std's `FromIterator<&char>` for `String`)
/// keeps every character and the order.
#[verifier::external_body]
pub(crate) fn string_of(chars: &Vec<char>) -> (s: String)
    ensures
        s@ == chars@,
{
    chars.iter().collect()
}

/// Number of bytes that `c` takes in UTF-8.
pub fn utf8_width(c: char) -> (w: usize)
    ensures
        w == char_width(c),
{
    let v: u32 = c as u32;
    if v < 0x80 {
        1
    } else if v < 0x800 {
        2
    } else if v < 0x10000 {
        3
    } else {
        4
    }
}

/// Number of bytes that `row` takes in UTF-8.
pub fn row_width(row: &Vec<char>) -> (w: usize)
    requires
        byte_width(row@) <= usize::MAX,
    ensures
        w == byte_width(row@),
{
    let mut w: usize = 0;
    let mut i: usize = 0;
    while i < row.len()
        invariant
            i <= row.len(),
            w == byte_width(row@.take(i as int)),
            byte_width(row@) <= usize::MAX,
        decreases row.len() - i,
    {
        proof {
            lemma_byte_width_push(row@.take(i as int), row@[i as int]);
            assert(row@.take(i as int).push(row@[i as int]) =~= row@.take(i + 1));
            lemma_byte_width_prefix(row@, i + 1);
        }
        w = w + utf8_width(row[i]);
        i = i + 1;
    }
    proof {
        assert(row@.take(i as int) =~= row@);
    }
    w
}

/// The greatest byte width among `rows`, 0 where there is none.
pub fn widest(rows: &Vec<Vec<char>>) -> (w: usize)
    requires
        forall|j: int| 0 <= j < rows.len() ==> byte_width(#[trigger] rows[j]@) <= usize::MAX,
    ensures
        w == max_width(rows_view(*rows)),
{
    let mut w: usize = 0;
    let mut i: usize = 0;
    while i < rows.len()
        invariant
            i <= rows.len(),
            w == max_width(rows_view(*rows).take(i as int)),
            forall|j: int| 0 <= j < rows.len() ==> byte_width(#[trigger] rows[j]@) <= usize::MAX,
        decreases rows.len() - i,
    {
        proof {
            assert(rows_view(*rows).take(i + 1).drop_last() =~= rows_view(*rows).take(i as int));
            assert(rows_view(*rows).take(i + 1).last() == rows[i as int]@);
        }
        let here = row_width(&rows[i]);
        if here > w {
            w = here;
        }
        i = i + 1;
    }
    proof {
        assert(rows_view(*rows).take(i as int) =~= rows_view(*rows));
    }
    w
}

/// Cuts `chars` into its lines.
pub fn split_lines(chars: &Vec<char>) -> (rows: Vec<Vec<char>>)
    ensures
        rows_view(rows) == lines_of(chars@),
{
    let mut rows: Vec<Vec<char>> = Vec::new();
    let mut line: Vec<char> = Vec::new();
    let mut i: usize = 0;
    proof {
        assert(rows_view(rows) =~= Seq::<Seq<char>>::empty());
    }
    while i < chars.len()
        invariant
            i <= chars.len(),
            rows_view(rows) == closed_lines(chars@.take(i as int)),
            line@ == open_line(chars@.take(i as int)),
        decreases chars.len() - i,
    {
        let c = chars[i];
        proof {
            assert(chars@.take(i + 1).drop_last() =~= chars@.take(i as int));
            assert(chars@.take(i + 1).last() == c);
        }
        if c == '\n' {
            let n = line.len();
            if n > 0 && line[n - 1] == '\r' {
                line.pop();
            }
            let ghost before = rows_view(rows);
            let ghost closed = line@;
            rows.push(line);
            line = Vec::new();
            proof {
                assert(closed =~= strip_cr(open_line(chars@.take(i as int))));
                assert(rows_view(rows) =~= before.push(closed));
            }
        } else {
            line.push(c);
        }
        i = i + 1;
    }
    proof {
        assert(chars@.take(i as int) =~= chars@);
    }
    if line.len() > 0 {
        let ghost before = rows_view(rows);
        let ghost last = line@;
        rows.push(line);
        proof {
            assert(rows_view(rows) =~= before.push(last));
        }
    }
    rows
}

} // verus!
