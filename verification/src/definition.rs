//! Typeface definitions: the checks that a definition has to pass before it is
//! handed to the parser.
use crate::text::{char_width, lines_of, rows_view, split_lines, utf8_width};
use vstd::prelude::*;

verus! {

/// How many characters a typeface has to define: the 95 printable ASCII
/// characters and seven more.
pub const REQUIRED_GLYPHS: usize = 102;

/// The bound on the numbers of a header: a height and a number of comment lines
/// stay below it.
pub const NUMBER_LIMIT: usize = 1_000_000;

/// Whether `c` is white space: a character with the Unicode property
/// `White_Space`.
pub open spec fn is_white_space(c: char) -> bool {
    let v = c as u32;
    ||| 0x09 <= v <= 0x0d
    ||| v == 0x20
    ||| v == 0x85
    ||| v == 0xa0
    ||| v == 0x1680
    ||| 0x2000 <= v <= 0x200a
    ||| v == 0x2028
    ||| v == 0x2029
    ||| v == 0x202f
    ||| v == 0x205f
    ||| v == 0x3000
}

/// `s` without the white space that it starts with.
pub open spec fn trim_start(s: Seq<char>) -> Seq<char>
    decreases s.len(),
{
    if s.len() > 0 && is_white_space(s[0]) {
        trim_start(s.drop_first())
    } else {
        s
    }
}

/// `s` without the white space that it ends with.
pub open spec fn trim_end(s: Seq<char>) -> Seq<char>
    decreases s.len(),
{
    if s.len() > 0 && is_white_space(s.last()) {
        trim_end(s.drop_last())
    } else {
        s
    }
}

/// `s` without the white space at its two ends.
pub open spec fn trimmed(s: Seq<char>) -> Seq<char> {
    trim_end(trim_start(s))
}

/// The fields of `s` that a space has closed, in order.
pub open spec fn closed_fields(s: Seq<char>) -> Seq<Seq<char>>
    decreases s.len(),
{
    if s.len() == 0 {
        Seq::empty()
    } else if s.last() == ' ' {
        closed_fields(s.drop_last()).push(open_field(s.drop_last()))
    } else {
        closed_fields(s.drop_last())
    }
}

/// What follows the last space of `s`.
pub open spec fn open_field(s: Seq<char>) -> Seq<char>
    decreases s.len(),
{
    if s.len() == 0 || s.last() == ' ' {
        Seq::empty()
    } else {
        open_field(s.drop_last()).push(s.last())
    }
}

/// The fields of `s`: what stands between its spaces, before the first and after
/// the last. Two spaces in a row hold an empty field.
pub open spec fn fields_of(s: Seq<char>) -> Seq<Seq<char>> {
    closed_fields(s).push(open_field(s))
}

/// Whether `c` is a decimal digit.
pub open spec fn is_digit(c: char) -> bool {
    '0' <= c <= '9'
}

/// Whether `s` starts with a sign.
pub open spec fn has_sign(s: Seq<char>) -> bool {
    s.len() > 0 && (s[0] == '+' || s[0] == '-')
}

/// `s` without the sign that it may start with.
pub open spec fn unsigned_part(s: Seq<char>) -> Seq<char> {
    if has_sign(s) {
        s.drop_first()
    } else {
        s
    }
}

/// Whether `s` is made of decimal digits alone.
pub open spec fn all_digits(s: Seq<char>) -> bool {
    forall|i: int| 0 <= i < s.len() ==> is_digit(#[trigger] s[i])
}

/// Whether `s` is a number: a plus or a minus, or none, and then one decimal
/// digit or more.
pub open spec fn is_number(s: Seq<char>) -> bool {
    unsigned_part(s).len() >= 1 && all_digits(unsigned_part(s))
}

/// The number that the decimal digits of `s` stand for.
pub open spec fn digits_value(s: Seq<char>) -> nat
    decreases s.len(),
{
    if s.len() == 0 {
        0
    } else {
        (digits_value(s.drop_last()) * 10 + (s.last() as u32 - 48)) as nat
    }
}

/// The number that `s` stands for.
pub open spec fn number_value(s: Seq<char>) -> int {
    if s.len() > 0 && s[0] == '-' {
        -(digits_value(unsigned_part(s)) as int)
    } else {
        digits_value(unsigned_part(s)) as int
    }
}

/// Whether `s` is a number from `least` on and below the bound on the numbers
/// of a header.
pub open spec fn is_count(s: Seq<char>, least: int) -> bool {
    is_number(s) && least <= number_value(s) < NUMBER_LIMIT
}

/// Whether `s` ends in a character of one byte.
pub open spec fn ends_in_byte(s: Seq<char>) -> bool {
    s.len() >= 1 && char_width(s.last()) == 1
}

/// Whether the last two bytes of `s` are whole characters: two of one byte each,
/// or one of two bytes.
pub open spec fn ends_in_two_bytes(s: Seq<char>) -> bool {
    ||| s.len() >= 1 && char_width(s.last()) == 2
    ||| s.len() >= 2 && char_width(s.last()) == 1 && char_width(s[s.len() - 2]) == 1
}

/// Whether `header` is a header line that can be read. Without the white space
/// at its ends it has six fields or more; the first, the signature with the hard
/// blank, ends in a character of one byte; the second is the height of a glyph,
/// at least 1; the sixth is the number of comment lines.
pub open spec fn is_header(header: Seq<char>) -> bool {
    let fields = fields_of(trimmed(header));
    &&& fields.len() >= 6
    &&& ends_in_byte(fields[0])
    &&& is_count(fields[1], 1)
    &&& is_count(fields[5], 0)
}

/// The height of a glyph that `header` declares.
pub open spec fn header_height(header: Seq<char>) -> nat {
    number_value(fields_of(trimmed(header))[1]) as nat
}

/// The number of comment lines that `header` declares.
pub open spec fn header_comments(header: Seq<char>) -> nat {
    number_value(fields_of(trimmed(header))[5]) as nat
}

/// Whether `row` can be a row of a glyph. The parser cuts the end marks off a
/// row by bytes: one byte, or two from the last row of a glyph of more than one
/// row. What it cuts off has to be whole characters.
pub open spec fn is_glyph_row(row: Seq<char>, last_row: bool, height: nat) -> bool {
    if last_row && height != 1 {
        ends_in_two_bytes(row)
    } else {
        ends_in_byte(row)
    }
}

/// Whether line `at` of a definition is fit for its place. After the header and
/// `comments` comment lines come the required glyphs, `height` rows each; after
/// them the tagged glyphs, each a tag line and `height` rows.
pub open spec fn is_line_sound(row: Seq<char>, at: int, comments: nat, height: nat) -> bool {
    let first = 1 + comments;
    let tagged = first + REQUIRED_GLYPHS * height;
    if at < first {
        true
    } else if at < tagged {
        is_glyph_row(row, (at - first) % (height as int) == height - 1, height)
    } else {
        let place = (at - tagged) % (height as int + 1);
        place == 0 || is_glyph_row(row, place == height, height)
    }
}

/// Whether `definition` can be handed to the parser: it starts with a header
/// line that can be read, holds the rows of all required glyphs, and every row of
/// a glyph ends in whole characters where the parser cuts its end marks off.
pub open spec fn is_sound_definition(definition: Seq<char>) -> bool {
    let lines = lines_of(definition);
    &&& lines.len() >= 1
    &&& is_header(lines[0])
    &&& lines.len() >= 1 + header_comments(lines[0]) + REQUIRED_GLYPHS * header_height(lines[0])
    &&& forall|at: int|
        0 <= at < lines.len() ==> is_line_sound(
            #[trigger] lines[at],
            at,
            header_comments(lines[0]),
            header_height(lines[0]),
        )
}

/// The height of a glyph that `definition` declares in its header.
pub open spec fn declared_height(definition: Seq<char>) -> nat {
    header_height(lines_of(definition)[0])
}

/// Whether `c` is white space.
pub fn is_white_space_char(c: char) -> (white: bool)
    ensures
        white == is_white_space(c),
{
    let v: u32 = c as u32;
    (0x09 <= v && v <= 0x0d) || v == 0x20 || v == 0x85 || v == 0xa0 || v == 0x1680 || (0x2000 <= v && v
        <= 0x200a) || v == 0x2028 || v == 0x2029 || v == 0x202f || v == 0x205f || v == 0x3000
}

/// `line` without the white space at its two ends.
pub fn trim(line: &Vec<char>) -> (out: Vec<char>)
    ensures
        out@ == trimmed(line@),
{
    let n = line.len();
    let mut start: usize = 0;
    proof {
        assert(line@.skip(0) =~= line@);
    }
    while start < n && is_white_space_char(line[start])
        invariant
            start <= n,
            n == line.len(),
            trim_start(line@) == trim_start(line@.skip(start as int)),
        decreases n - start,
    {
        proof {
            assert(line@.skip(start as int).drop_first() =~= line@.skip(start + 1));
        }
        start = start + 1;
    }
    let ghost rest = line@.skip(start as int);
    proof {
        assert(trim_start(line@) == rest);
        assert(rest =~= line@.subrange(start as int, n as int));
    }
    let mut end: usize = n;
    while end > start && is_white_space_char(line[end - 1])
        invariant
            start <= end <= n,
            n == line.len(),
            trim_end(rest) == trim_end(line@.subrange(start as int, end as int)),
        decreases end,
    {
        proof {
            assert(line@.subrange(start as int, end as int).drop_last() =~= line@.subrange(
                start as int,
                end - 1,
            ));
        }
        end = end - 1;
    }
    proof {
        assert(trim_end(rest) == line@.subrange(start as int, end as int));
    }
    let mut out: Vec<char> = Vec::new();
    let mut i: usize = start;
    while i < end
        invariant
            start <= i <= end <= n,
            n == line.len(),
            out@ == line@.subrange(start as int, i as int),
        decreases end - i,
    {
        out.push(line[i]);
        proof {
            assert(line@.subrange(start as int, i as int).push(line@[i as int]) =~= line@.subrange(
                start as int,
                i + 1,
            ));
        }
        i = i + 1;
    }
    out
}

/// Cuts `line` into its fields.
pub fn split_fields(line: &Vec<char>) -> (fields: Vec<Vec<char>>)
    ensures
        rows_view(fields) == fields_of(line@),
{
    let mut fields: Vec<Vec<char>> = Vec::new();
    let mut field: Vec<char> = Vec::new();
    let mut i: usize = 0;
    proof {
        assert(rows_view(fields) =~= Seq::<Seq<char>>::empty());
    }
    while i < line.len()
        invariant
            i <= line.len(),
            rows_view(fields) == closed_fields(line@.take(i as int)),
            field@ == open_field(line@.take(i as int)),
        decreases line.len() - i,
    {
        let c = line[i];
        proof {
            assert(line@.take(i + 1).drop_last() =~= line@.take(i as int));
            assert(line@.take(i + 1).last() == c);
        }
        if c == ' ' {
            let ghost before = rows_view(fields);
            let ghost closed = field@;
            fields.push(field);
            field = Vec::new();
            proof {
                assert(rows_view(fields) =~= before.push(closed));
            }
        } else {
            field.push(c);
        }
        i = i + 1;
    }
    proof {
        assert(line@.take(i as int) =~= line@);
    }
    let ghost before = rows_view(fields);
    let ghost last = field@;
    fields.push(field);
    proof {
        assert(rows_view(fields) =~= before.push(last));
    }
    fields
}

/// A number that only grows when a digit is put behind it.
proof fn lemma_digits_grow(s: Seq<char>, c: char)
    requires
        is_digit(c),
    ensures
        digits_value(s.push(c)) == digits_value(s) * 10 + (c as u32 - 48),
        digits_value(s.push(c)) >= digits_value(s),
{
    assert(s.push(c).drop_last() =~= s);
}

/// Reads `field` as a number from 0 on and below the bound on the numbers of
/// a header.
pub fn parse_number(field: &Vec<char>) -> (number: Option<usize>)
    ensures
        number is Some <==> is_count(field@, 0),
        number is Some ==> number->Some_0 == number_value(field@),
        number is Some ==> number->Some_0 < NUMBER_LIMIT,
{
    let n = field.len();
    if n == 0 {
        return None;
    }
    let signed = field[0] == '+' || field[0] == '-';
    let negative = field[0] == '-';
    let start: usize = if signed {
        1
    } else {
        0
    };
    if start == n {
        return None;
    }
    let ghost digits = unsigned_part(field@);
    proof {
        assert(digits =~= field@.skip(start as int));
    }
    let mut value: usize = 0;
    let mut i: usize = start;
    while i < n
        invariant
            start <= i <= n,
            n == field.len(),
            digits == field@.skip(start as int),
            digits == unsigned_part(field@),
            all_digits(digits.take(i - start)),
            value <= NUMBER_LIMIT,
            value < NUMBER_LIMIT ==> value == digits_value(digits.take(i - start)),
            value == NUMBER_LIMIT ==> digits_value(digits.take(i - start)) >= NUMBER_LIMIT,
        decreases n - i,
    {
        let c = field[i];
        proof {
            assert(digits[i - start] == c);
        }
        if !('0' <= c && c <= '9') {
            proof {
                assert(!is_digit(digits[i - start]));
                assert(!all_digits(digits));
            }
            return None;
        }
        proof {
            assert(digits.take(i - start).push(c) =~= digits.take(i + 1 - start));
            lemma_digits_grow(digits.take(i - start), c);
        }
        if value < NUMBER_LIMIT {
            value = value * 10 + (c as u32 - 48) as usize;
            if value > NUMBER_LIMIT {
                value = NUMBER_LIMIT;
            }
        }
        i = i + 1;
    }
    proof {
        assert(digits.take(i - start) =~= digits);
    }
    if value >= NUMBER_LIMIT || (negative && value > 0) {
        None
    } else {
        Some(value)
    }
}

/// Whether `row` ends in a character of one byte.
fn check_ends_in_byte(row: &Vec<char>) -> (fit: bool)
    ensures
        fit == ends_in_byte(row@),
{
    let n = row.len();
    n >= 1 && utf8_width(row[n - 1]) == 1
}

/// Whether the last two bytes of `row` are whole characters.
fn check_ends_in_two_bytes(row: &Vec<char>) -> (fit: bool)
    ensures
        fit == ends_in_two_bytes(row@),
{
    let n = row.len();
    if n == 0 {
        return false;
    }
    let last = utf8_width(row[n - 1]);
    last == 2 || (n >= 2 && last == 1 && utf8_width(row[n - 2]) == 1)
}

/// Reads the height of a glyph and the number of comment lines from `header`.
pub fn read_header(header: &Vec<char>) -> (read: Option<(usize, usize)>)
    ensures
        read is Some <==> is_header(header@),
        read is Some ==> read->Some_0.0 == header_height(header@) && read->Some_0.1 == header_comments(
            header@,
        ),
        read is Some ==> 1 <= read->Some_0.0 < NUMBER_LIMIT && read->Some_0.1 < NUMBER_LIMIT,
{
    let line = trim(header);
    let fields = split_fields(&line);
    if fields.len() < 6 {
        return None;
    }
    proof {
        assert(rows_view(fields)[0] == fields[0]@);
        assert(rows_view(fields)[1] == fields[1]@);
        assert(rows_view(fields)[5] == fields[5]@);
    }
    if !check_ends_in_byte(&fields[0]) {
        return None;
    }
    match parse_number(&fields[1]) {
        None => None,
        Some(height) => {
            if height == 0 {
                return None;
            }
            match parse_number(&fields[5]) {
                None => None,
                Some(comments) => Some((height, comments)),
            }
        },
    }
}

/// Whether `row`, line `at` of a definition, is fit for its place.
fn check_line(row: &Vec<char>, at: usize, comments: usize, height: usize) -> (sound: bool)
    requires
        1 <= height < NUMBER_LIMIT,
        comments < NUMBER_LIMIT,
    ensures
        sound == is_line_sound(row@, at as int, comments as nat, height as nat),
{
    let first = 1 + comments;
    let tagged = first + REQUIRED_GLYPHS * height;
    if at < first {
        true
    } else if at < tagged {
        let last_row = (at - first) % height == height - 1;
        if last_row && height != 1 {
            check_ends_in_two_bytes(row)
        } else {
            check_ends_in_byte(row)
        }
    } else {
        let place = (at - tagged) % (height + 1);
        if place == 0 {
            true
        } else if place == height && height != 1 {
            check_ends_in_two_bytes(row)
        } else {
            check_ends_in_byte(row)
        }
    }
}

/// Whether `definition` can be handed to the parser.
pub fn check_definition(definition: &Vec<char>) -> (sound: bool)
    ensures
        sound == is_sound_definition(definition@),
{
    let lines = split_lines(definition);
    if lines.len() == 0 {
        return false;
    }
    proof {
        assert(rows_view(lines)[0] == lines[0]@);
    }
    match read_header(&lines[0]) {
        None => false,
        Some((height, comments)) => {
            if lines.len() < 1 + comments + REQUIRED_GLYPHS * height {
                return false;
            }
            let mut at: usize = 0;
            while at < lines.len()
                invariant
                    at <= lines.len(),
                    1 <= height < NUMBER_LIMIT,
                    comments < NUMBER_LIMIT,
                    rows_view(lines) == lines_of(definition@),
                    lines.len() >= 1,
                    height == header_height(lines_of(definition@)[0]),
                    comments == header_comments(lines_of(definition@)[0]),
                    forall|k: int|
                        0 <= k < at ==> is_line_sound(
                            #[trigger] lines_of(definition@)[k],
                            k,
                            comments as nat,
                            height as nat,
                        ),
                decreases lines.len() - at,
            {
                proof {
                    assert(rows_view(lines)[at as int] == lines[at as int]@);
                }
                if !check_line(&lines[at], at, comments, height) {
                    proof {
                        assert(!is_line_sound(
                            lines_of(definition@)[at as int],
                            at as int,
                            comments as nat,
                            height as nat,
                        ));
                    }
                    return false;
                }
                at = at + 1;
            }
            true
        },
    }
}

} // verus!
