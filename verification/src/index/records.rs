//! The file of the index: text, one record on each line, its three fields
//! parted by `|`: the path, the rank as a decimal number, and the time of
//! the last access as a whole number of seconds.
//!
//! A line that does not part into exactly three fields is passed over. The
//! rank is kept as the text that the file holds.

use vstd::prelude::*;

use crate::text::{chars_of, push_str, string_of};

verus! {

/// One record of the file.
#[derive(Debug, PartialEq, Eq)]
pub struct Record {
    pub path: String,
    /// The rank, as the decimal text of the file.
    pub rank: String,
    pub last_accessed: u64,
}

/// What a record holds.
pub ghost struct RecordText {
    pub path: Seq<char>,
    pub rank: Seq<char>,
    pub last_accessed: u64,
}

impl View for Record {
    type V = RecordText;

    open spec fn view(&self) -> RecordText {
        RecordText { path: self.path@, rank: self.rank@, last_accessed: self.last_accessed }
    }
}

/// What each of the records holds.
pub open spec fn views(records: Seq<Record>) -> Seq<RecordText> {
    Seq::new(records.len(), |i: int| records[i]@)
}

/// The parts of `text` between the occurrences of `separator`. There is
/// always one part more than there are separators.
pub open spec fn split(text: Seq<char>, separator: char) -> Seq<Seq<char>>
    decreases text.len(),
{
    if text.len() == 0 {
        seq![Seq::empty()]
    } else {
        let before = split(text.drop_last(), separator);
        if text.last() == separator {
            before.push(Seq::empty())
        } else {
            before.drop_last().push(before.last().push(text.last()))
        }
    }
}

/// A line without the carriage return that may stand before its line feed.
pub open spec fn without_carriage_return(line: Seq<char>) -> Seq<char> {
    if line.len() > 0 && line.last() == '\r' {
        line.drop_last()
    } else {
        line
    }
}

/// The lines of `text`: what stands before each line feed, without a
/// carriage return at its end, and what follows the last line feed if
/// anything does.
pub open spec fn lines(text: Seq<char>) -> Seq<Seq<char>> {
    let parts = split(text, '\n');
    let ended = Seq::new((parts.len() - 1) as nat, |k: int| without_carriage_return(parts[k]));
    if parts.last().len() > 0 {
        ended.push(parts.last())
    } else {
        ended
    }
}

/// The value of a decimal digit.
pub open spec fn digit_value(c: char) -> Option<nat> {
    if '0' as u32 <= c as u32 <= '9' as u32 {
        Some((c as u32 - '0' as u32) as nat)
    } else {
        None
    }
}

/// Whether `text` is made of decimal digits.
pub open spec fn all_digits(text: Seq<char>) -> bool {
    forall|i: int| 0 <= i < text.len() ==> (#[trigger] digit_value(text[i])) is Some
}

/// The number that the decimal digits `digits` write.
pub open spec fn decimal_value(digits: Seq<char>) -> nat
    decreases digits.len(),
{
    if digits.len() == 0 {
        0
    } else {
        decimal_value(digits.drop_last()) * 10 + digit_value(digits.last()).unwrap_or(0)
    }
}

/// The number that `text` writes, or 0 where it writes none that fits:
/// a number is written as decimal digits, at least one, with or without a
/// `+` before them.
pub open spec fn number_or_zero(text: Seq<char>) -> u64 {
    let digits = if text.len() > 0 && text[0] == '+' {
        text.skip(1)
    } else {
        text
    };
    if digits.len() > 0 && all_digits(digits) && decimal_value(digits) <= u64::MAX {
        decimal_value(digits) as u64
    } else {
        0
    }
}

/// The record that a line holds, if it parts into three fields.
pub open spec fn record_of(line: Seq<char>) -> Option<RecordText> {
    let fields = split(line, '|');
    if fields.len() == 3 {
        Some(
            RecordText {
                path: fields[0],
                rank: fields[1],
                last_accessed: number_or_zero(fields[2]),
            },
        )
    } else {
        None
    }
}

/// The records that the lines hold, in the order of the lines.
pub open spec fn records_of(lines: Seq<Seq<char>>) -> Seq<RecordText>
    decreases lines.len(),
{
    if lines.len() == 0 {
        Seq::empty()
    } else {
        match record_of(lines.last()) {
            Some(record) => records_of(lines.drop_last()).push(record),
            None => records_of(lines.drop_last()),
        }
    }
}

/// The character of a decimal digit.
pub open spec fn digit_char(digit: nat) -> char {
    if digit == 0 {
        '0'
    } else if digit == 1 {
        '1'
    } else if digit == 2 {
        '2'
    } else if digit == 3 {
        '3'
    } else if digit == 4 {
        '4'
    } else if digit == 5 {
        '5'
    } else if digit == 6 {
        '6'
    } else if digit == 7 {
        '7'
    } else if digit == 8 {
        '8'
    } else {
        '9'
    }
}

/// The decimal digits of `n`, without leading zeros.
pub open spec fn decimal(n: nat) -> Seq<char>
    decreases n,
{
    if n < 10 {
        seq![digit_char(n)]
    } else {
        decimal(n / 10).push(digit_char(n % 10))
    }
}

/// The line of a record.
pub open spec fn line_of(record: RecordText) -> Seq<char> {
    record.path + seq!['|'] + record.rank + seq!['|'] + decimal(record.last_accessed as nat)
}

/// The text of the file that holds `records`: the line of each, ended by a
/// line feed.
pub open spec fn text_of(records: Seq<RecordText>) -> Seq<char>
    decreases records.len(),
{
    if records.len() == 0 {
        Seq::empty()
    } else {
        text_of(records.drop_last()) + line_of(records.last()) + seq!['\n']
    }
}

/// A field that a line can hold: it has no separator and no line feed in it.
pub open spec fn is_field(text: Seq<char>) -> bool {
    forall|i: int| 0 <= i < text.len() ==> text[i] != '|' && text[i] != '\n'
}

/// A record whose path and rank are fields.
pub open spec fn is_storable(record: RecordText) -> bool {
    is_field(record.path) && is_field(record.rank)
}

/// The places at which the parts of `chars[from..to]` begin and end.
fn split_ranges(chars: &Vec<char>, from: usize, to: usize, separator: char) -> (ranges: Vec<
    (usize, usize),
>)
    requires
        from <= to <= chars@.len(),
    ensures
        ranges@.len() == split(chars@.subrange(from as int, to as int), separator).len(),
        forall|k: int|
            0 <= k < ranges@.len() ==> {
                &&& from <= (#[trigger] ranges@[k]).0 <= ranges@[k].1 <= to
                &&& chars@.subrange(ranges@[k].0 as int, ranges@[k].1 as int) == split(
                    chars@.subrange(from as int, to as int),
                    separator,
                )[k]
            },
{
    let mut ranges: Vec<(usize, usize)> = Vec::new();
    let mut start: usize = from;
    let mut i: usize = from;
    proof {
        assert(chars@.subrange(from as int, from as int) =~= Seq::empty());
    }
    while i < to
        invariant
            from <= start <= i <= to <= chars@.len(),
            split(chars@.subrange(from as int, i as int), separator).len() == ranges@.len() + 1,
            split(chars@.subrange(from as int, i as int), separator).last() == chars@.subrange(
                start as int,
                i as int,
            ),
            forall|k: int|
                0 <= k < ranges@.len() ==> {
                    &&& from <= (#[trigger] ranges@[k]).0 <= ranges@[k].1 <= to
                    &&& chars@.subrange(ranges@[k].0 as int, ranges@[k].1 as int) == split(
                        chars@.subrange(from as int, i as int),
                        separator,
                    )[k]
                },
        decreases to - i,
    {
        let ghost before = split(chars@.subrange(from as int, i as int), separator);
        let ghost now = split(chars@.subrange(from as int, i + 1), separator);
        proof {
            assert(chars@.subrange(from as int, i + 1).drop_last() =~= chars@.subrange(
                from as int,
                i as int,
            ));
            assert(chars@.subrange(from as int, i + 1).last() == chars@[i as int]);
        }
        if chars[i] == separator {
            ranges.push((start, i));
            start = i + 1;
            proof {
                assert(now == before.push(Seq::empty()));
                assert(chars@.subrange(start as int, i + 1) =~= Seq::empty());
            }
        } else {
            proof {
                assert(now == before.drop_last().push(before.last().push(chars@[i as int])));
                assert(chars@.subrange(start as int, i as int).push(chars@[i as int])
                    =~= chars@.subrange(start as int, i + 1));
            }
        }
        i += 1;
    }
    ranges.push((start, to));
    ranges
}

/// The lines of `chars`, as the places at which they begin and end.
fn line_ranges(chars: &Vec<char>) -> (ranges: Vec<(usize, usize)>)
    ensures
        ranges@.len() == lines(chars@).len(),
        forall|k: int|
            0 <= k < ranges@.len() ==> {
                &&& (#[trigger] ranges@[k]).0 <= ranges@[k].1 <= chars@.len()
                &&& chars@.subrange(ranges@[k].0 as int, ranges@[k].1 as int) == lines(chars@)[k]
            },
{
    let parts = split_ranges(chars, 0, chars.len(), '\n');
    let ghost whole = split(chars@, '\n');
    proof {
        assert(chars@.subrange(0, chars@.len() as int) =~= chars@);
    }
    let mut ranges: Vec<(usize, usize)> = Vec::new();
    let ended = parts.len() - 1;
    let mut k: usize = 0;
    while k < ended
        invariant
            k <= ended,
            ended == parts@.len() - 1,
            parts@.len() == whole.len(),
            whole == split(chars@, '\n'),
            ranges@.len() == k,
            forall|j: int|
                0 <= j < parts@.len() ==> {
                    &&& (#[trigger] parts@[j]).0 <= parts@[j].1 <= chars@.len()
                    &&& chars@.subrange(parts@[j].0 as int, parts@[j].1 as int) == whole[j]
                },
            forall|j: int|
                0 <= j < k ==> {
                    &&& (#[trigger] ranges@[j]).0 <= ranges@[j].1 <= chars@.len()
                    &&& chars@.subrange(ranges@[j].0 as int, ranges@[j].1 as int)
                        == without_carriage_return(whole[j])
                },
        decreases ended - k,
    {
        let (start, end) = parts[k];
        let ghost line = chars@.subrange(start as int, end as int);
        if end > start && chars[end - 1] == '\r' {
            proof {
                assert(line.last() == chars@[end - 1]);
                assert(line.drop_last() =~= chars@.subrange(start as int, end - 1));
            }
            ranges.push((start, end - 1));
        } else {
            proof {
                if line.len() > 0 {
                    assert(line.last() == chars@[end - 1]);
                }
            }
            ranges.push((start, end));
        }
        k += 1;
    }
    let (start, end) = parts[ended];
    if end > start {
        ranges.push((start, end));
    }
    proof {
        assert(chars@.subrange(start as int, end as int) == whole.last());
        assert(ranges@.len() == lines(chars@).len());
        assert forall|j: int| 0 <= j < ranges@.len() implies chars@.subrange(
            (#[trigger] ranges@[j]).0 as int,
            ranges@[j].1 as int,
        ) == lines(chars@)[j] by {}
    }
    ranges
}

/// The value of a decimal digit.
fn digit_of(c: char) -> (digit: Option<u64>)
    ensures
        match digit {
            Some(d) => digit_value(c) == Some(d as nat) && d < 10,
            None => digit_value(c) is None,
        },
{
    let code = c as u32;
    if 48 <= code && code <= 57 {
        Some((code - 48) as u64)
    } else {
        None
    }
}

/// The value of a longer run of digits is no smaller.
proof fn lemma_decimal_value_grows(digits: Seq<char>, n: int)
    requires
        0 <= n <= digits.len(),
    ensures
        decimal_value(digits.take(n)) <= decimal_value(digits),
    decreases digits.len() - n,
{
    if n == digits.len() {
        assert(digits.take(n) =~= digits);
    } else {
        lemma_decimal_value_grows(digits, n + 1);
        assert(digits.take(n + 1).drop_last() =~= digits.take(n));
    }
}

/// The number that `chars[from..to]` writes, or 0 where it writes none.
fn parse_number(chars: &Vec<char>, from: usize, to: usize) -> (number: u64)
    requires
        from <= to <= chars@.len(),
    ensures
        number == number_or_zero(chars@.subrange(from as int, to as int)),
{
    let ghost text = chars@.subrange(from as int, to as int);
    let mut i: usize = from;
    if from < to && chars[from] == '+' {
        i = from + 1;
    }
    let first = i;
    let ghost digits = chars@.subrange(first as int, to as int);
    proof {
        if first > from {
            assert(text[0] == '+');
            assert(text.skip(1) =~= digits);
        } else {
            if text.len() > 0 {
                assert(text[0] == chars@[from as int]);
            }
            assert(text =~= digits);
        }
    }
    if first == to {
        return 0;
    }
    let mut value: u64 = 0;
    proof {
        assert(digits.take(0) =~= Seq::empty());
    }
    while i < to
        invariant
            from <= first <= i <= to <= chars@.len(),
            digits == chars@.subrange(first as int, to as int),
            text == chars@.subrange(from as int, to as int),
            number_or_zero(text) == (if digits.len() > 0 && all_digits(digits) && decimal_value(
                digits,
            ) <= u64::MAX {
                decimal_value(digits) as u64
            } else {
                0
            }),
            value == decimal_value(digits.take(i - first)),
            forall|j: int| 0 <= j < i - first ==> (#[trigger] digit_value(digits[j])) is Some,
        decreases to - i,
    {
        proof {
            assert(digits.take(i - first + 1).drop_last() =~= digits.take(i - first));
            assert(digits.take(i - first + 1).last() == chars@[i as int]);
            assert(digits[i - first] == chars@[i as int]);
            lemma_decimal_value_grows(digits, i - first + 1);
        }
        match digit_of(chars[i]) {
            Some(d) => {
                proof {
                    assert(decimal_value(digits.take(i - first + 1)) == value * 10 + d);
                }
                let scaled = match value.checked_mul(10) {
                    Some(s) => s,
                    None => {
                        return 0;
                    },
                };
                value = match scaled.checked_add(d) {
                    Some(v) => v,
                    None => {
                        return 0;
                    },
                };
            },
            None => {
                proof {
                    assert(!all_digits(digits));
                }
                return 0;
            },
        }
        i += 1;
    }
    proof {
        assert(digits.take(to - first) =~= digits);
    }
    value
}

/// The records that `contents` holds, in the order of its lines. A line
/// that does not part into three fields is passed over, and a time that is
/// no number is read as 0.
pub fn parse_records(contents: &str) -> (records: Vec<Record>)
    ensures
        views(records@) == records_of(lines(contents@)),
{
    let chars = chars_of(contents);
    let ranges = line_ranges(&chars);
    let ghost all = lines(chars@);
    let mut records: Vec<Record> = Vec::new();
    let mut k: usize = 0;
    proof {
        assert(all.take(0) =~= Seq::empty());
        assert(views(records@) =~= Seq::empty());
    }
    while k < ranges.len()
        invariant
            k <= ranges@.len(),
            all == lines(chars@),
            ranges@.len() == all.len(),
            forall|j: int|
                0 <= j < ranges@.len() ==> {
                    &&& (#[trigger] ranges@[j]).0 <= ranges@[j].1 <= chars@.len()
                    &&& chars@.subrange(ranges@[j].0 as int, ranges@[j].1 as int) == all[j]
                },
            views(records@) == records_of(all.take(k as int)),
        decreases ranges@.len() - k,
    {
        let (start, end) = ranges[k];
        let fields = split_ranges(&chars, start, end, '|');
        let ghost before = views(records@);
        proof {
            assert(all.take(k + 1).drop_last() =~= all.take(k as int));
            assert(all.take(k + 1).last() == all[k as int]);
        }
        if fields.len() == 3 {
            let path = string_of(&chars, fields[0].0, fields[0].1);
            let rank = string_of(&chars, fields[1].0, fields[1].1);
            let last_accessed = parse_number(&chars, fields[2].0, fields[2].1);
            let record = Record { path, rank, last_accessed };
            records.push(record);
            proof {
                assert(record_of(all[k as int]) == Some(record@));
                assert(views(records@) =~= before.push(record@));
            }
        } else {
            proof {
                assert(views(records@) =~= before);
            }
        }
        k += 1;
    }
    proof {
        assert(all.take(all.len() as int) =~= all);
    }
    records
}

/// Puts the decimal digits of `n` at the end of `out`.
fn push_decimal(out: &mut Vec<char>, n: u64)
    ensures
        final(out)@ == old(out)@ + decimal(n as nat),
    decreases n,
{
    if n >= 10 {
        push_decimal(out, n / 10);
    }
    let digit = match n % 10 {
        0 => '0',
        1 => '1',
        2 => '2',
        3 => '3',
        4 => '4',
        5 => '5',
        6 => '6',
        7 => '7',
        8 => '8',
        _ => '9',
    };
    out.push(digit);
    proof {
        if n >= 10 {
            assert(final(out)@ =~= old(out)@ + decimal((n / 10) as nat).push(digit));
        } else {
            assert(final(out)@ =~= old(out)@ + seq![digit]);
        }
    }
}

/// The text of the file that holds `records`, one line for each.
pub fn format_records(records: &Vec<Record>) -> (contents: String)
    ensures
        contents@ == text_of(views(records@)),
{
    let mut out: Vec<char> = Vec::new();
    let mut k: usize = 0;
    let ghost all = views(records@);
    proof {
        assert(all.take(0) =~= Seq::empty());
    }
    while k < records.len()
        invariant
            k <= records@.len(),
            all == views(records@),
            out@ == text_of(all.take(k as int)),
        decreases records@.len() - k,
    {
        let ghost before = out@;
        proof {
            assert(all.take(k + 1).drop_last() =~= all.take(k as int));
            assert(all.take(k + 1).last() == records@[k as int]@);
        }
        push_str(&mut out, records[k].path.as_str());
        out.push('|');
        push_str(&mut out, records[k].rank.as_str());
        out.push('|');
        push_decimal(&mut out, records[k].last_accessed);
        out.push('\n');
        proof {
            assert(out@ =~= before + line_of(records@[k as int]@) + seq!['\n']);
        }
        k += 1;
    }
    proof {
        assert(all.take(all.len() as int) =~= all);
        assert(out@.subrange(0, out@.len() as int) =~= out@);
    }
    string_of(&out, 0, out.len())
}

/// The lines of the records `records`.
pub open spec fn lines_of(records: Seq<RecordText>) -> Seq<Seq<char>> {
    Seq::new(records.len(), |k: int| line_of(records[k]))
}

/// A text always parts into one part at least.
pub proof fn lemma_split_len(text: Seq<char>, separator: char)
    ensures
        split(text, separator).len() >= 1,
    decreases text.len(),
{
    if text.len() > 0 {
        lemma_split_len(text.drop_last(), separator);
    }
}

/// Text without a separator, put at the end, goes on with the last part.
pub proof fn lemma_split_append(text: Seq<char>, more: Seq<char>, separator: char)
    requires
        forall|i: int| 0 <= i < more.len() ==> more[i] != separator,
    ensures
        split(text, separator).len() >= 1,
        split(text + more, separator) == split(text, separator).drop_last().push(
            split(text, separator).last() + more,
        ),
    decreases more.len(),
{
    let parts = split(text, separator);
    lemma_split_len(text, separator);
    if more.len() == 0 {
        assert(text + more =~= text);
        assert(parts.last() + more =~= parts.last());
        assert(parts.drop_last().push(parts.last()) =~= parts);
    } else {
        let shorter = more.drop_last();
        lemma_split_append(text, shorter, separator);
        assert((text + more).drop_last() =~= text + shorter);
        assert((text + more).last() == more.last());
        let before = split(text + shorter, separator);
        assert(before.last() == parts.last() + shorter);
        assert(before.drop_last() =~= parts.drop_last());
        assert((parts.last() + shorter).push(more.last()) =~= parts.last() + more);
    }
}

/// A separator put at the end begins a new, empty part.
pub proof fn lemma_split_push_separator(text: Seq<char>, separator: char)
    ensures
        split(text.push(separator), separator) == split(text, separator).push(Seq::empty()),
{
    assert(text.push(separator).drop_last() =~= text);
}

/// The digits of a number are decimal digits, at least one, and write that
/// number.
pub proof fn lemma_decimal(n: nat)
    ensures
        decimal(n).len() > 0,
        all_digits(decimal(n)),
        decimal_value(decimal(n)) == n,
    decreases n,
{
    let digits = decimal(n);
    if n < 10 {
        assert(digits.drop_last() =~= Seq::<char>::empty());
        assert(digit_value(digits.last()) == Some(n));
        assert(decimal_value(digits.drop_last()) == 0);
    } else {
        lemma_decimal(n / 10);
        assert(digits.drop_last() =~= decimal(n / 10));
        assert(digit_value(digits.last()) == Some(n % 10));
        assert forall|i: int| 0 <= i < digits.len() implies (#[trigger] digit_value(
            digits[i],
        )) is Some by {
            if i < digits.len() - 1 {
                assert(digits[i] == decimal(n / 10)[i]);
            }
        }
    }
}

/// A run of digits has none of the characters that part a file: no
/// separator, no line feed, no carriage return, no sign.
pub proof fn lemma_digits_are_plain(digits: Seq<char>)
    requires
        all_digits(digits),
    ensures
        is_field(digits),
        forall|i: int| 0 <= i < digits.len() ==> digits[i] != '\r' && digits[i] != '+',
{
    assert forall|i: int| 0 <= i < digits.len() implies digits[i] != '|' && digits[i] != '\n'
        && digits[i] != '\r' && digits[i] != '+' by {
        assert(digit_value(digits[i]) is Some);
    }
}

/// The line of a record parts into the fields of the record.
pub proof fn lemma_fields_of_line(record: RecordText)
    requires
        is_storable(record),
    ensures
        split(line_of(record), '|') == seq![
            record.path,
            record.rank,
            decimal(record.last_accessed as nat),
        ],
        record_of(line_of(record)) == Some(record),
{
    let digits = decimal(record.last_accessed as nat);
    lemma_decimal(record.last_accessed as nat);
    lemma_digits_are_plain(digits);
    let none = Seq::<char>::empty();
    lemma_split_append(none, record.path, '|');
    assert(none + record.path =~= record.path);
    assert(split(record.path, '|') =~= seq![record.path]);
    lemma_split_push_separator(record.path, '|');
    let first = record.path.push('|');
    assert(first =~= record.path + seq!['|']);
    assert(split(first, '|') =~= seq![record.path, none]);
    lemma_split_append(first, record.rank, '|');
    let second = first + record.rank;
    assert(none + record.rank =~= record.rank);
    assert(split(second, '|') =~= seq![record.path, record.rank]);
    lemma_split_push_separator(second, '|');
    let third = second.push('|');
    assert(third =~= second + seq!['|']);
    assert(split(third, '|') =~= seq![record.path, record.rank, none]);
    lemma_split_append(third, digits, '|');
    assert(none + digits =~= digits);
    assert(third + digits =~= line_of(record));
    assert(split(line_of(record), '|') =~= seq![record.path, record.rank, digits]);
    assert(digits[0] != '+');
}

/// The text of records parts, at its line feeds, into their lines and an
/// empty rest.
pub proof fn lemma_split_text(records: Seq<RecordText>)
    requires
        forall|k: int| 0 <= k < records.len() ==> is_storable(#[trigger] records[k]),
    ensures
        split(text_of(records), '\n') == lines_of(records).push(Seq::empty()),
    decreases records.len(),
{
    if records.len() == 0 {
        assert(lines_of(records).push(Seq::<char>::empty()) =~= seq![Seq::<char>::empty()]);
    } else {
        let before = records.drop_last();
        let record = records.last();
        let line = line_of(record);
        lemma_split_text(before);
        lemma_decimal(record.last_accessed as nat);
        lemma_digits_are_plain(decimal(record.last_accessed as nat));
        assert forall|i: int| 0 <= i < line.len() implies line[i] != '\n' by {
            let p = record.path.len() as int;
            let r = record.rank.len() as int;
            if i < p {
                assert(line[i] == record.path[i]);
            } else if i == p {
            } else if i < p + 1 + r {
                assert(line[i] == record.rank[i - p - 1]);
            } else if i == p + 1 + r {
            } else {
                assert(line[i] == decimal(record.last_accessed as nat)[i - p - r - 2]);
            }
        }
        lemma_split_append(text_of(before), line, '\n');
        lemma_split_push_separator(text_of(before) + line, '\n');
        assert((text_of(before) + line).push('\n') =~= text_of(records));
        let parts = split(text_of(before), '\n');
        assert(parts.last() + line =~= line);
        assert(parts.drop_last() =~= lines_of(before));
        assert(lines_of(before).push(line) =~= lines_of(records));
    }
}

/// The lines of the text of records are the lines of the records.
pub proof fn lemma_lines_of_text(records: Seq<RecordText>)
    requires
        forall|k: int| 0 <= k < records.len() ==> is_storable(#[trigger] records[k]),
    ensures
        lines(text_of(records)) == lines_of(records),
{
    lemma_split_text(records);
    let parts = split(text_of(records), '\n');
    assert forall|k: int| 0 <= k < records.len() implies without_carriage_return(parts[k])
        == line_of(records[k]) by {
        let digits = decimal(records[k].last_accessed as nat);
        lemma_decimal(records[k].last_accessed as nat);
        lemma_digits_are_plain(digits);
        let line = line_of(records[k]);
        assert(parts[k] == line);
        assert(line.last() == digits.last());
    }
    assert(lines(text_of(records)) =~= lines_of(records));
}

/// What is written is read back: the text of records whose paths and ranks
/// are fields holds exactly these records, in their order.
pub proof fn lemma_round_trip(records: Seq<RecordText>)
    requires
        forall|k: int| 0 <= k < records.len() ==> is_storable(#[trigger] records[k]),
    ensures
        records_of(lines(text_of(records))) == records,
{
    lemma_lines_of_text(records);
    lemma_records_of_lines(records);
}

/// The lines of records hold these records.
pub proof fn lemma_records_of_lines(records: Seq<RecordText>)
    requires
        forall|k: int| 0 <= k < records.len() ==> is_storable(#[trigger] records[k]),
    ensures
        records_of(lines_of(records)) == records,
    decreases records.len(),
{
    if records.len() > 0 {
        lemma_records_of_lines(records.drop_last());
        lemma_fields_of_line(records.last());
        assert(lines_of(records).drop_last() =~= lines_of(records.drop_last()));
        assert(lines_of(records).last() == line_of(records.last()));
        assert(records.drop_last().push(records.last()) =~= records);
    } else {
        assert(lines_of(records) =~= Seq::<Seq<char>>::empty());
    }
}

} // verus!
