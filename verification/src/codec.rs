//! Names of tile files: how a grid cell is written into a file name and read
//! back from it.
//!
//! A tile in row `r` and column `c` of the grid is stored under
//! `{prefix}_{r:02}_{c:02}.{extension}`. Reading a name back looks only at
//! the last five characters of its stem, which hold both numbers as long as
//! neither exceeds 99.

use vstd::prelude::*;
use vstd::string::*;
use crate::error::TileError;
use crate::paths::{file_stem, lemma_stem_of_name, path_file_name, path_file_stem};
use crate::text::{decimal_text, digit_char, lowercase, lowercase_of, push_signed, signed_text};

verus! {

/// Whether a character is one of the ten decimal digits.
pub open spec fn is_digit(c: char) -> bool {
    '0' <= c <= '9'
}

/// The number a decimal digit stands for.
pub open spec fn digit_value(c: char) -> int {
    c as int - '0' as int
}

/// Whether a text is made of decimal digits only.
pub open spec fn all_digits(s: Seq<char>) -> bool {
    forall|i: int| 0 <= i < s.len() ==> is_digit(#[trigger] s[i])
}

/// The number that a run of decimal digits stands for; zero for an empty run.
pub open spec fn digits_value(s: Seq<char>) -> int
    decreases s.len(),
{
    if s.len() == 0 {
        0
    } else {
        10 * digits_value(s.drop_last()) + digit_value(s.last())
    }
}

/// The number that a token stands for: an optional sign, `+` or `-`, and
/// after it at least one digit and nothing but digits. `None` for any other
/// text, and for a number that a 32-bit integer cannot hold.
pub open spec fn token_value(s: Seq<char>) -> Option<int> {
    let signed = s.len() > 0 && (s[0] == '-' || s[0] == '+');
    let digits = if signed {
        s.skip(1)
    } else {
        s
    };
    let value = if signed && s[0] == '-' {
        -digits_value(digits)
    } else {
        digits_value(digits)
    };
    if digits.len() > 0 && all_digits(digits) && i32::MIN <= value <= i32::MAX {
        Some(value)
    } else {
        None
    }
}

/// The part of a stem that holds the position: its last five characters, or
/// all of it where it has no more than five.
pub open spec fn stem_tail(stem: Seq<char>) -> Seq<char> {
    if stem.len() <= 5 {
        stem
    } else {
        stem.skip(stem.len() - 5)
    }
}

/// The two numbers written in a tail, in the order in which they stand: the
/// tail is split at its first underscore and each side is read as a token.
/// `None` where there is no underscore or a side is no token.
pub open spec fn tail_tokens(tail: Seq<char>) -> Option<(int, int)> {
    match tail.index_of_first('_') {
        Some(k) => match (token_value(tail.take(k)), token_value(tail.skip(k + 1))) {
            (Some(first), Some(second)) => Some((first, second)),
            _ => None,
        },
        None => None,
    }
}

/// The position that a stem decodes to: the zero-based column and row of the
/// cell, in this order. The stem holds the one-based row first and the
/// one-based column second. A stem of fewer than five characters decodes to
/// nothing.
pub open spec fn stem_position(stem: Seq<char>) -> Option<(int, int)> {
    if stem.len() < 5 {
        None
    } else {
        match tail_tokens(stem_tail(stem)) {
            Some((first, second)) => Some((second - 1, first - 1)),
            None => None,
        }
    }
}

/// A run of at most four digits stands for a number below ten thousand.
proof fn lemma_digits_value_bound(s: Seq<char>)
    requires
        all_digits(s),
        s.len() <= 4,
    ensures
        0 <= digits_value(s) <= 9999,
        s.len() <= 3 ==> digits_value(s) <= 999,
        s.len() <= 2 ==> digits_value(s) <= 99,
        s.len() <= 1 ==> digits_value(s) <= 9,
    decreases s.len(),
{
    if s.len() > 0 {
        assert(is_digit(s[s.len() - 1]));
        assert forall|i: int| 0 <= i < s.drop_last().len() implies is_digit(
            #[trigger] s.drop_last()[i],
        ) by {
            assert(s.drop_last()[i] == s[i]);
        }
        lemma_digits_value_bound(s.drop_last());
    }
}

/// The numbers in a tail of at most five characters have at most four digits.
proof fn lemma_tail_tokens_bound(tail: Seq<char>)
    requires
        tail.len() <= 5,
    ensures
        match tail_tokens(tail) {
            Some((first, second)) => -9999 <= first <= 9999 && -9999 <= second <= 9999,
            None => true,
        },
{
    tail.index_of_first_ensures('_');
    match tail.index_of_first('_') {
        Some(k) => {
            lemma_token_value_bound(tail.take(k));
            lemma_token_value_bound(tail.skip(k + 1));
        },
        None => {},
    }
}

/// A token of at most four characters stands for a number of at most four
/// digits.
proof fn lemma_token_value_bound(s: Seq<char>)
    requires
        s.len() <= 4,
    ensures
        match token_value(s) {
            Some(v) => -9999 <= v <= 9999,
            None => true,
        },
{
    if s.len() > 0 && (s[0] == '-' || s[0] == '+') {
        if all_digits(s.skip(1)) {
            lemma_digits_value_bound(s.skip(1));
        }
    } else if all_digits(s) {
        lemma_digits_value_bound(s);
    }
}

/// Reads the token that stands in `chars` from `from` up to `to`.
#[verifier::loop_isolation(false)]
fn read_token(chars: &Vec<char>, from: usize, to: usize) -> (value: Option<i32>)
    requires
        from <= to <= chars.len(),
        to - from <= 4,
    ensures
        match value {
            Some(v) => token_value(chars@.subrange(from as int, to as int)) == Some(v as int),
            None => token_value(chars@.subrange(from as int, to as int)) is None,
        },
{
    let ghost token = chars@.subrange(from as int, to as int);
    if from == to {
        return None;
    }
    let first: char = chars[from];
    assert(token[0] == first);
    let signed: bool = first == '-' || first == '+';
    let start: usize = if signed {
        from + 1
    } else {
        from
    };
    let ghost digits = chars@.subrange(start as int, to as int);
    assert(digits =~= if signed {
        token.skip(1)
    } else {
        token
    });
    if start == to {
        return None;
    }
    let mut i: usize = start;
    let mut value: i32 = 0;
    while i < to
        invariant
            start <= i <= to <= chars.len(),
            to - start <= 4,
            digits == chars@.subrange(start as int, to as int),
            all_digits(chars@.subrange(start as int, i as int)),
            value == digits_value(chars@.subrange(start as int, i as int)),
            0 <= value <= 9999,
            i - start <= 3 ==> value <= 999,
        decreases to - i,
    {
        let c: char = chars[i];
        if c < '0' || c > '9' {
            assert(digits[i - start] == c);
            return None;
        }
        let ghost before = chars@.subrange(start as int, i as int);
        let ghost after = chars@.subrange(start as int, i + 1);
        assert(after.drop_last() =~= before);
        assert(after.last() == c);
        assert forall|k: int| 0 <= k < after.len() implies is_digit(#[trigger] after[k]) by {
            if k < before.len() {
                assert(after[k] == before[k]);
            }
        }
        proof {
            lemma_digits_value_bound(before);
            lemma_digits_value_bound(after);
        }
        value = value * 10 + (c as i32 - '0' as i32);
        i = i + 1;
    }
    assert(chars@.subrange(start as int, i as int) =~= digits);
    if first == '-' {
        Some(-value)
    } else {
        Some(value)
    }
}

/// The first underscore of a text is where an underscore stands with none
/// before it.
proof fn lemma_first_underscore(s: Seq<char>, k: int)
    requires
        0 <= k < s.len(),
        s[k] == '_',
        forall|i: int| 0 <= i < k ==> s[i] != '_',
    ensures
        s.index_of_first('_') == Some(k),
{
    s.index_of_first_ensures('_');
    assert(s.contains('_'));
}

/// A text without an underscore has no first underscore.
proof fn lemma_no_underscore(s: Seq<char>)
    requires
        forall|i: int| 0 <= i < s.len() ==> s[i] != '_',
    ensures
        s.index_of_first('_') is None,
{
    s.index_of_first_ensures('_');
}

/// Copies the tail of a stem into a vector.
#[verifier::loop_isolation(false)]
fn read_tail(stem: &str) -> (tail: Vec<char>)
    ensures
        tail@ == stem_tail(stem@),
{
    let len: usize = stem.unicode_len();
    let start: usize = if len <= 5 {
        0
    } else {
        len - 5
    };
    let mut tail: Vec<char> = Vec::new();
    let mut i: usize = start;
    while i < len
        invariant
            start <= i <= len,
            tail@ == stem@.subrange(start as int, i as int),
        decreases len - i,
    {
        let c: char = stem.get_char(i);
        tail.push(c);
        assert(tail@ =~= stem@.subrange(start as int, i + 1));
        i = i + 1;
    }
    assert(tail@ =~= stem_tail(stem@));
    tail
}

/// Reads the two numbers at the end of a stem, in the order in which they
/// stand there. The last five characters of the stem (all of it, where it is
/// shorter) are split at their first underscore, and both sides must be
/// tokens: an optional sign and digits.
pub fn stem_tokens(stem: &str) -> (tokens: Option<(i32, i32)>)
    ensures
        match tokens {
            Some((first, second)) => tail_tokens(stem_tail(stem@)) == Some(
                (first as int, second as int),
            ),
            None => tail_tokens(stem_tail(stem@)) is None,
        },
{
    let tail: Vec<char> = read_tail(stem);
    let len: usize = tail.len();
    let mut k: usize = 0;
    while k < len && tail[k] != '_'
        invariant
            k <= len == tail.len(),
            forall|i: int| 0 <= i < k ==> tail@[i] != '_',
        decreases len - k,
    {
        k = k + 1;
    }
    if k == len {
        proof {
            lemma_no_underscore(tail@);
        }
        return None;
    }
    proof {
        lemma_first_underscore(tail@, k as int);
        assert(tail@.take(k as int) =~= tail@.subrange(0, k as int));
        assert(tail@.skip(k + 1) =~= tail@.subrange(k + 1, len as int));
    }
    let first: Option<i32> = read_token(&tail, 0, k);
    let second: Option<i32> = read_token(&tail, k + 1, len);
    match (first, second) {
        (Some(a), Some(b)) => Some((a, b)),
        _ => None,
    }
}

/// Decodes the position written at the end of a stem: the zero-based column
/// and row of the cell, in this order. Fails where the stem has fewer than
/// five characters, where its last five hold no underscore, or where a side
/// of the underscore is no number.
pub fn decode_position(stem: &str) -> (position: Result<(i32, i32), TileError>)
    ensures
        match position {
            Ok((column, row)) => stem_position(stem@) == Some((column as int, row as int)),
            Err(e) => e == TileError::InvalidFilenameFormat && stem_position(stem@) is None,
        },
{
    if stem.unicode_len() < 5 {
        return Err(TileError::InvalidFilenameFormat);
    }
    match stem_tokens(stem) {
        Some((first, second)) => {
            proof {
                lemma_tail_tokens_bound(stem_tail(stem@));
            }
            Ok((second - 1, first - 1))
        },
        None => Err(TileError::InvalidFilenameFormat),
    }
}

/// The position that a file name decodes to: that of its stem.
pub open spec fn name_position(filename: Seq<char>) -> Option<(int, int)> {
    match path_file_stem(filename) {
        Some(stem) => stem_position(stem),
        None => None,
    }
}

/// Works out the zero-based column and row of the cell that a tile file was
/// named after, in this order. Fails where the name has no stem or the stem
/// decodes to nothing.
pub fn get_image_column_row(filename: &str) -> (position: Result<(i32, i32), TileError>)
    ensures
        match position {
            Ok((column, row)) => name_position(filename@) == Some((column as int, row as int)),
            Err(e) => e == TileError::InvalidFilenameFormat && name_position(filename@) is None,
        },
{
    match file_stem(filename) {
        Some(stem) => decode_position(stem.as_str()),
        None => Err(TileError::InvalidFilenameFormat),
    }
}

/// The two numbers that a file name ends in, as they stand in its stem.
pub open spec fn name_tokens(filename: Seq<char>) -> Option<(int, int)> {
    match path_file_stem(filename) {
        Some(stem) => tail_tokens(stem_tail(stem)),
        None => None,
    }
}

/// The row number that a file name ends in: the first of its two numbers.
pub open spec fn name_row(filename: Seq<char>) -> Option<int> {
    match name_tokens(filename) {
        Some((first, _)) => Some(first),
        None => None,
    }
}

/// The column number that a file name ends in: the second of its two
/// numbers.
pub open spec fn name_column(filename: Seq<char>) -> Option<int> {
    match name_tokens(filename) {
        Some((_, second)) => Some(second),
        None => None,
    }
}

/// Whether any of the names ends in two numbers.
pub open spec fn any_name_has_tokens(names: Seq<String>) -> bool {
    exists|i: int| 0 <= i < names.len() && (#[trigger] name_row(names[i]@)) is Some
}

/// Whether `rows` is the largest row number that any of the names ends in.
pub open spec fn is_largest_row(names: Seq<String>, rows: int) -> bool {
    &&& exists|i: int| 0 <= i < names.len() && #[trigger] name_row(names[i]@) == Some(rows)
    &&& forall|i: int|
        0 <= i < names.len() ==> match #[trigger] name_row(names[i]@) {
            Some(v) => v <= rows,
            None => true,
        }
}

/// Whether `columns` is the largest column number that any of the names ends
/// in.
pub open spec fn is_largest_column(names: Seq<String>, columns: int) -> bool {
    &&& exists|i: int| 0 <= i < names.len() && #[trigger] name_column(names[i]@) == Some(columns)
    &&& forall|i: int|
        0 <= i < names.len() ==> match #[trigger] name_column(names[i]@) {
            Some(v) => v <= columns,
            None => true,
        }
}

/// Works out how many columns and rows a set of tile files spans, in this
/// order: the largest column number and the largest row number that any name
/// ends in. A name whose stem does not end in two numbers is passed over; if
/// none does, both counts are zero.
pub fn get_columns_rows(filenames: &[String]) -> (shape: (i32, i32))
    ensures
        any_name_has_tokens(filenames@) ==> is_largest_column(filenames@, shape.0 as int)
            && is_largest_row(filenames@, shape.1 as int),
        !any_name_has_tokens(filenames@) ==> shape == (0i32, 0i32),
{
    let mut found: bool = false;
    let mut rows: i32 = 0;
    let mut columns: i32 = 0;
    let mut i: usize = 0;
    while i < filenames.len()
        invariant
            i <= filenames.len(),
            !found ==> rows == 0 && columns == 0,
            found == any_name_has_tokens(filenames@.take(i as int)),
            found ==> is_largest_row(filenames@.take(i as int), rows as int),
            found ==> is_largest_column(filenames@.take(i as int), columns as int),
        decreases filenames.len() - i,
    {
        let ghost before = filenames@.take(i as int);
        let ghost after = filenames@.take(i + 1);
        assert(forall|j: int| 0 <= j < i ==> after[j] == before[j]);
        assert(after[i as int] == filenames@[i as int]);
        let tokens: Option<(i32, i32)> = match file_stem(filenames[i].as_str()) {
            Some(stem) => stem_tokens(stem.as_str()),
            None => None,
        };
        assert(match tokens {
            Some((first, second)) => name_tokens(filenames@[i as int]@) == Some(
                (first as int, second as int),
            ),
            None => name_tokens(filenames@[i as int]@) is None,
        });
        proof {
            if found {
                let a = choose|j: int|
                    0 <= j < before.len() && #[trigger] name_row(before[j]@) == Some(rows as int);
                let b = choose|j: int|
                    0 <= j < before.len() && #[trigger] name_column(before[j]@) == Some(
                        columns as int,
                    );
                assert(name_row(after[a]@) == Some(rows as int));
                assert(name_column(after[b]@) == Some(columns as int));
            } else {
                assert forall|j: int| 0 <= j < before.len() implies (#[trigger] name_column(
                    before[j]@,
                )) is None by {
                    assert(name_row(before[j]@) is None);
                }
            }
        }
        match tokens {
            Some((first, second)) => {
                proof {
                    assert(name_row(after[i as int]@) == Some(first as int));
                    assert(name_column(after[i as int]@) == Some(second as int));
                }
                if !found || first > rows {
                    rows = first;
                }
                if !found || second > columns {
                    columns = second;
                }
                found = true;
                assert(is_largest_row(after, rows as int));
                assert(is_largest_column(after, columns as int));
            },
            None => {
                proof {
                    assert(name_row(after[i as int]@) is None);
                    if found {
                        assert(is_largest_row(after, rows as int));
                        assert(is_largest_column(after, columns as int));
                    } else if any_name_has_tokens(after) {
                        let c = choose|j: int|
                            0 <= j < after.len() && (#[trigger] name_row(after[j]@)) is Some;
                        assert(name_row(before[c]@) is Some);
                    }
                }
            },
        }
        i = i + 1;
    }
    assert(filenames@.take(i as int) =~= filenames@);
    (columns, rows)
}

/// A number as it is written into a file name: in decimal digits, with a
/// leading zero where it would otherwise be a single digit, and with a minus
/// sign in front where it is negative. Numbers of three digits and more take
/// the room they need.
pub open spec fn padded_text(n: int) -> Seq<char> {
    if 0 <= n < 10 {
        seq!['0'] + signed_text(n)
    } else {
        signed_text(n)
    }
}

/// The stem of the file that holds the tile of a cell: the prefix, the row
/// and the column, joined by underscores.
pub open spec fn position_stem(prefix: Seq<char>, column: int, row: int) -> Seq<char> {
    prefix + seq!['_'] + padded_text(row) + seq!['_'] + padded_text(column)
}

/// A text in which every `jpeg` is replaced by `jpg`, reading from the left.
pub open spec fn jpeg_to_jpg(s: Seq<char>) -> Seq<char>
    decreases s.len(),
{
    if s.len() < 4 {
        s
    } else if s.take(4) == seq!['j', 'p', 'e', 'g'] {
        seq!['j', 'p', 'g'] + jpeg_to_jpg(s.skip(4))
    } else {
        seq![s[0]] + jpeg_to_jpg(s.skip(1))
    }
}

/// The name of the file that holds the tile of a cell, given the extension
/// as it is to be written.
pub open spec fn position_file_name(
    prefix: Seq<char>,
    column: int,
    row: int,
    extension: Seq<char>,
) -> Seq<char> {
    position_stem(prefix, column, row) + seq!['.'] + extension
}

/// Appends a number as it is written into a file name.
fn push_padded(text: &mut String, n: i32)
    ensures
        final(text)@ == old(text)@ + padded_text(n as int),
{
    if 0 <= n && n < 10 {
        text.push('0');
    }
    push_signed(text, n);
    assert(text@ =~= old(text)@ + padded_text(n as int));
}

/// Writes the stem of the file that holds the tile of a cell:
/// `{prefix}_{row}_{column}`, each number with at least two digits.
pub fn encode_position(prefix: &str, column: i32, row: i32) -> (stem: String)
    ensures
        stem@ == position_stem(prefix@, column as int, row as int),
{
    let mut stem: String = String::from_str(prefix);
    stem.push('_');
    push_padded(&mut stem, row);
    stem.push('_');
    push_padded(&mut stem, column);
    assert(stem@ =~= position_stem(prefix@, column as int, row as int));
    stem
}

/// Rewrites every `jpeg` in a text to `jpg`.
pub fn rewrite_jpeg(text: &str) -> (rewritten: String)
    ensures
        rewritten@ == jpeg_to_jpg(text@),
{
    let len: usize = text.unicode_len();
    let mut rewritten: String = String::new();
    let mut i: usize = 0;
    assert(text@.skip(0) =~= text@);
    assert(rewritten@ + jpeg_to_jpg(text@) =~= jpeg_to_jpg(text@));
    while i < len
        invariant
            i <= len == text@.len(),
            rewritten@ + jpeg_to_jpg(text@.skip(i as int)) == jpeg_to_jpg(text@),
        decreases len - i,
    {
        let ghost rest = text@.skip(i as int);
        let ghost done = rewritten@;
        if len - i >= 4 && text.get_char(i) == 'j' && text.get_char(i + 1) == 'p' && text.get_char(
            i + 2,
        ) == 'e' && text.get_char(i + 3) == 'g' {
            assert(rest.take(4) =~= seq!['j', 'p', 'e', 'g']);
            assert(rest.skip(4) =~= text@.skip(i + 4));
            rewritten.push('j');
            rewritten.push('p');
            rewritten.push('g');
            assert(rewritten@ + jpeg_to_jpg(text@.skip(i + 4)) =~= done + jpeg_to_jpg(rest));
            i = i + 4;
        } else {
            let c: char = text.get_char(i);
            assert(rest.skip(1) =~= text@.skip(i + 1));
            assert(rest[0] == c);
            proof {
                if rest.len() >= 4 {
                    assert(rest.take(4) != seq!['j', 'p', 'e', 'g']) by {
                        let word = seq!['j', 'p', 'e', 'g'];
                        if rest.take(4) == word {
                            assert(rest.take(4)[0] == word[0]);
                            assert(rest.take(4)[1] == word[1]);
                            assert(rest.take(4)[2] == word[2]);
                            assert(rest.take(4)[3] == word[3]);
                        }
                    }
                } else {
                    assert(seq![c] + jpeg_to_jpg(rest.skip(1)) =~= rest);
                }
            }
            rewritten.push(c);
            assert(rewritten@ + jpeg_to_jpg(text@.skip(i + 1)) =~= done + jpeg_to_jpg(rest));
            i = i + 1;
        }
    }
    assert(text@.skip(len as int) =~= Seq::<char>::empty());
    assert(rewritten@ + Seq::<char>::empty() =~= rewritten@);
    rewritten
}

/// The extension under which tiles of a format are stored: the format's name
/// in lower case, with `jpeg` shortened to `jpg`.
pub fn format_extension(format: &str) -> (extension: String)
    ensures
        extension@ == jpeg_to_jpg(lowercase_of(format@)),
{
    let lowered: String = lowercase(format);
    rewrite_jpeg(lowered.as_str())
}

/// Writes the name of the file that holds the tile of a cell:
/// `{prefix}_{row}_{column}.{extension}`, with the extension that
/// `format_extension` gives for the format.
pub fn encode_file_name(prefix: &str, column: i32, row: i32, format: &str) -> (name: String)
    ensures
        name@ == position_file_name(
            prefix@,
            column as int,
            row as int,
            jpeg_to_jpg(lowercase_of(format@)),
        ),
{
    let mut name: String = encode_position(prefix, column, row);
    let extension: String = format_extension(format);
    name.push('.');
    name.append(extension.as_str());
    name
}

/// The two digits that stand for a number from 0 to 99.
proof fn lemma_padded_two_digits(n: int)
    requires
        0 <= n <= 99,
    ensures
        padded_text(n).len() == 2,
        all_digits(padded_text(n)),
        digits_value(padded_text(n)) == n,
        padded_text(n)[0] != '_' && padded_text(n)[1] != '_',
        padded_text(n)[0] != '-' && padded_text(n)[0] != '+',
{
    let text = padded_text(n);
    let high = digit_char(n / 10);
    let low = digit_char(n % 10);
    assert(decimal_text((n / 10) as nat) =~= seq![high]);
    assert(text =~= seq![high, low]) by {
        if n >= 10 {
            assert(decimal_text(n as nat) =~= decimal_text((n / 10) as nat).push(low));
        } else {
            assert(decimal_text(n as nat) =~= seq![low]);
        }
    }
    assert(is_digit(high) && digit_value(high) == n / 10);
    assert(is_digit(low) && digit_value(low) == n % 10);
    assert(text.drop_last() =~= seq![high]);
    assert(text.drop_last().drop_last() =~= Seq::<char>::empty());
    assert(digits_value(text.drop_last()) == n / 10) by {
        reveal_with_fuel(digits_value, 2);
    }
    assert(digits_value(text) == n) by {
        reveal_with_fuel(digits_value, 3);
    }
}

/// Writing a cell into a stem and reading the stem back gives the cell
/// again, counted from zero: for every prefix, and for every column and row
/// from 1 to 99.
pub proof fn lemma_position_round_trip(prefix: Seq<char>, column: int, row: int)
    requires
        1 <= column <= 99,
        1 <= row <= 99,
    ensures
        stem_position(position_stem(prefix, column, row)) == Some((column - 1, row - 1)),
{
    let stem = position_stem(prefix, column, row);
    let rows = padded_text(row);
    let columns = padded_text(column);
    lemma_padded_two_digits(row);
    lemma_padded_two_digits(column);
    let tail = stem_tail(stem);
    assert(stem.len() == prefix.len() + 6);
    assert(tail =~= rows + seq!['_'] + columns);
    lemma_first_underscore(tail, 2);
    assert(tail.take(2) =~= rows);
    assert(tail.skip(3) =~= columns);
    assert(token_value(rows) == Some(row));
    assert(token_value(columns) == Some(column));
}

/// A stem whose last five characters hold no underscore decodes to nothing.
pub proof fn lemma_position_needs_underscore(stem: Seq<char>)
    requires
        !stem_tail(stem).contains('_'),
    ensures
        stem_position(stem) is None,
        tail_tokens(stem_tail(stem)) is None,
{
    stem_tail(stem).index_of_first_ensures('_');
}

/// A file name whose stem holds no underscore in its last five characters
/// decodes to nothing, and so does a name without a stem.
pub proof fn lemma_name_needs_underscore(filename: Seq<char>)
    requires
        match path_file_stem(filename) {
            Some(stem) => !stem_tail(stem).contains('_'),
            None => true,
        },
    ensures
        name_position(filename) is None,
{
    match path_file_stem(filename) {
        Some(stem) => lemma_position_needs_underscore(stem),
        None => {},
    }
}

/// Writing a cell into a file name and reading the name back gives the cell
/// again, counted from zero: for every column and row from 1 to 99, every
/// prefix and every extension without a dot, and for every path whose last
/// component is the name written.
pub proof fn lemma_file_name_round_trip(
    path: Seq<char>,
    prefix: Seq<char>,
    column: int,
    row: int,
    extension: Seq<char>,
)
    requires
        1 <= column <= 99,
        1 <= row <= 99,
        !extension.contains('.'),
        path_file_name(path) == Some(position_file_name(prefix, column, row, extension)),
    ensures
        path_file_stem(path) == Some(position_stem(prefix, column, row)),
        name_position(path) == Some((column - 1, row - 1)),
{
    lemma_padded_two_digits(row);
    lemma_padded_two_digits(column);
    lemma_stem_of_name(position_stem(prefix, column, row), extension);
    lemma_position_round_trip(prefix, column, row);
}

} // verus!
