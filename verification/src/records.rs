//! The records of integral files.
//!
//! An integral file is text. Each record is one line of fields separated by
//! blanks: some orbital indices, written in decimal and counted from one,
//! followed by a value. A one-electron file has two indices per record, an
//! integral file four, and the nuclear-repulsion file none. This module
//! finds the fields of a line and reads the indices. The value is left as
//! the range of bytes in which it stands, for the caller to read as a
//! floating-point number.

use vstd::prelude::*;
use vstd::slice::slice_subrange;
use crate::error::ScfError;

verus! {

/// A blank: space, tab, line feed, vertical tab, form feed or carriage
/// return.
pub open spec fn is_blank(b: u8) -> bool {
    b == 0x20 || (0x09 <= b && b <= 0x0d)
}

/// A decimal digit, `0` to `9`.
pub open spec fn is_digit(b: u8) -> bool {
    0x30 <= b && b <= 0x39
}

/// A range of bytes within a line, from `start` up to, but not including,
/// `end`.
#[derive(Debug, Clone, Copy, PartialEq, Eq, Structural)]
pub struct Field {
    pub start: usize,
    pub end: usize,
}

/// `field` is a maximal run of bytes of `line` that are not blank.
pub open spec fn is_field(line: Seq<u8>, field: Field) -> bool {
    &&& field.start < field.end <= line.len()
    &&& forall|i: int| field.start <= i < field.end ==> !is_blank(#[trigger] line[i])
    &&& (field.start == 0 || is_blank(line[field.start - 1]))
    &&& (field.end == line.len() || is_blank(line[field.end as int]))
}

/// Position `i` lies within one of `fields`.
pub open spec fn covered(fields: Seq<Field>, i: int) -> bool {
    exists|k: int| 0 <= k < fields.len() && (#[trigger] fields[k]).start <= i < fields[k].end
}

/// `fields` are the fields of `line`: each is a maximal run of bytes that
/// are not blank, they stand in the order in which they occur, and no byte
/// that is not blank lies outside them.
pub open spec fn fields_of(line: Seq<u8>, fields: Seq<Field>) -> bool {
    &&& forall|k: int| 0 <= k < fields.len() ==> is_field(line, #[trigger] fields[k])
    &&& forall|j: int, k: int|
        0 <= j < k < fields.len() ==> (#[trigger] fields[j]).end < (#[trigger] fields[k]).start
    &&& forall|i: int| 0 <= i < line.len() && !is_blank(#[trigger] line[i]) ==> covered(fields, i)
}

/// The fields of `line`. There is exactly one sequence that `fields_of`
/// accepts (`lemma_fields_unique`), and `split_fields` computes it.
pub open spec fn line_fields(line: Seq<u8>) -> Seq<Field> {
    choose|fields: Seq<Field>| fields_of(line, fields)
}

/// The bytes of `line` that `field` spans.
pub open spec fn field_text(line: Seq<u8>, field: Field) -> Seq<u8> {
    line.subrange(field.start as int, field.end as int)
}

/// The number that a sequence of decimal digits denotes.
pub open spec fn decimal_value(digits: Seq<u8>) -> nat
    decreases digits.len(),
{
    if digits.len() == 0 {
        0
    } else {
        10 * decimal_value(digits.drop_last()) + (digits.last() - 0x30) as nat
    }
}

/// `text` is one or more decimal digits and nothing else.
pub open spec fn is_decimal(text: Seq<u8>) -> bool {
    &&& text.len() > 0
    &&& forall|i: int| 0 <= i < text.len() ==> is_digit(#[trigger] text[i])
}

/// The index that `text` denotes, if it is a decimal number that fits in a
/// `usize`.
pub open spec fn index_value(text: Seq<u8>) -> Option<usize> {
    if is_decimal(text) && decimal_value(text) <= usize::MAX {
        Some(decimal_value(text) as usize)
    } else {
        None
    }
}

/// What a line holds as a record of `arity` indices and a value: the
/// indices as written, and the field of the value. `None` unless the line
/// has exactly `arity + 1` fields of which the first `arity` are indices.
pub open spec fn record_of(line: Seq<u8>, arity: nat) -> Option<(Seq<usize>, Field)> {
    let fields = line_fields(line);
    if fields.len() == arity + 1 && (forall|k: int|
        0 <= k < arity ==> index_value(field_text(line, #[trigger] fields[k])) is Some) {
        Some(
            (
                Seq::new(arity, |k: int| index_value(field_text(line, fields[k])).unwrap()),
                fields[arity as int],
            ),
        )
    } else {
        None
    }
}

/// One record of an integral file.
#[derive(Debug)]
pub struct Record {
    /// The indices, as written in the file.
    pub indices: Vec<usize>,
    /// Where in the line the value stands.
    pub value: Field,
}

/// Two fields of one line that share a byte are the same field.
pub proof fn lemma_field_determined(line: Seq<u8>, f: Field, g: Field)
    requires
        is_field(line, f),
        is_field(line, g),
        g.start <= f.start < g.end,
    ensures
        f == g,
{
    if g.start < f.start {
        assert(!is_blank(line[f.start - 1]));
    }
    if f.end < g.end {
        assert(!is_blank(line[f.end as int]));
    }
    if g.end < f.end {
        assert(!is_blank(line[g.end as int]));
    }
}

proof fn lemma_fields_prefix_equal(line: Seq<u8>, f: Seq<Field>, g: Seq<Field>, k: nat)
    requires
        fields_of(line, f),
        fields_of(line, g),
        k <= f.len(),
    ensures
        k <= g.len(),
        forall|j: int| 0 <= j < k ==> f[j] == g[j],
    decreases k,
{
    if k > 0 {
        lemma_fields_prefix_equal(line, f, g, (k - 1) as nat);
        let x = f[k - 1];
        assert(is_field(line, x));
        assert(!is_blank(line[x.start as int]));
        assert(covered(g, x.start as int));
        let m = choose|m: int| 0 <= m < g.len() && (#[trigger] g[m]).start <= x.start < g[m].end;
        lemma_field_determined(line, x, g[m]);
        if m < k - 1 {
            assert(f[m] == g[m]);
            assert(f[m].end < f[k - 1].start);
        } else if m > k - 1 {
            let y = g[k - 1];
            assert(is_field(line, y));
            assert(!is_blank(line[y.start as int]));
            assert(covered(f, y.start as int));
            let m2 = choose|m2: int|
                0 <= m2 < f.len() && (#[trigger] f[m2]).start <= y.start < f[m2].end;
            lemma_field_determined(line, y, f[m2]);
            assert(g[k - 1].end < g[m].start);
            if m2 > k - 1 {
                assert(f[k - 1].end < f[m2].start);
            } else if m2 < k - 1 {
                assert(f[m2] == g[m2]);
                assert(g[m2].end < g[k - 1].start);
            }
        }
    }
}

/// A line has only one sequence of fields.
pub proof fn lemma_fields_unique(line: Seq<u8>, f: Seq<Field>, g: Seq<Field>)
    requires
        fields_of(line, f),
        fields_of(line, g),
    ensures
        f == g,
{
    lemma_fields_prefix_equal(line, f, g, f.len());
    lemma_fields_prefix_equal(line, g, f, g.len());
    assert(f =~= g);
}

/// Digits appended to a number never make it smaller.
proof fn lemma_decimal_prefix(text: Seq<u8>, i: int)
    requires
        0 <= i <= text.len(),
        forall|j: int| 0 <= j < text.len() ==> is_digit(#[trigger] text[j]),
    ensures
        decimal_value(text.take(i)) <= decimal_value(text),
    decreases text.len(),
{
    if i < text.len() {
        let shorter = text.drop_last();
        lemma_decimal_prefix(shorter, i);
        assert(shorter.take(i) =~= text.take(i));
        assert(is_digit(text[text.len() - 1]));
    } else {
        assert(text.take(i) =~= text);
    }
}

fn blank(b: u8) -> (r: bool)
    ensures
        r == is_blank(b),
{
    b == 0x20 || (0x09 <= b && b <= 0x0d)
}

fn digit(b: u8) -> (r: bool)
    ensures
        r == is_digit(b),
{
    0x30 <= b && b <= 0x39
}

/// Splits a line into its fields, the maximal runs of bytes that are not
/// blank, in the order in which they occur.
pub fn split_fields(line: &[u8]) -> (fields: Vec<Field>)
    ensures
        fields_of(line@, fields@),
        fields@ == line_fields(line@),
{
    let n: usize = line.len();
    let mut fields: Vec<Field> = Vec::new();
    let mut i: usize = 0;
    while i < n
        invariant
            n == line@.len(),
            i <= n,
            i == 0 || is_blank(line@[i - 1]) || (i < n ==> is_blank(line@[i as int])),
            forall|k: int|
                0 <= k < fields@.len() ==> is_field(line@, #[trigger] fields@[k]) && fields@[k].end
                    <= i,
            forall|j: int, k: int|
                0 <= j < k < fields@.len() ==> (#[trigger] fields@[j]).end < (
                #[trigger] fields@[k]).start,
            forall|p: int| 0 <= p < i && !is_blank(#[trigger] line@[p]) ==> covered(fields@, p),
        decreases n - i,
    {
        if blank(line[i]) {
            i += 1;
        } else {
            let start: usize = i;
            while i < n && !blank(line[i])
                invariant
                    n == line@.len(),
                    start <= i <= n,
                    start < n,
                    !is_blank(line@[start as int]),
                    forall|p: int| start <= p < i ==> !is_blank(#[trigger] line@[p]),
                decreases n - i,
            {
                i += 1;
            }
            let field = Field { start, end: i };
            let ghost before = fields@;
            fields.push(field);
            proof {
                assert(is_field(line@, field));
                assert forall|p: int| 0 <= p < i && !is_blank(#[trigger] line@[p]) implies covered(
                    fields@,
                    p,
                ) by {
                    if p < start {
                        assert(covered(before, p));
                        let k = choose|k: int|
                            0 <= k < before.len() && (#[trigger] before[k]).start <= p
                                < before[k].end;
                        assert(fields@[k] == before[k]);
                    } else {
                        assert(fields@[before.len() as int] == field);
                    }
                }
            }
        }
    }
    proof {
        assert(fields_of(line@, fields@));
        lemma_fields_unique(line@, fields@, line_fields(line@));
    }
    fields
}

/// Reads an index written as decimal digits. `None` if `text` is empty,
/// holds a byte that is not a digit, or denotes a number too large for a
/// `usize`.
pub fn parse_index(text: &[u8]) -> (r: Option<usize>)
    ensures
        r == index_value(text@),
{
    let n: usize = text.len();
    if n == 0 {
        return None;
    }
    let mut value: usize = 0;
    let mut i: usize = 0;
    while i < n
        invariant
            n == text@.len(),
            i <= n,
            forall|j: int| 0 <= j < i ==> is_digit(#[trigger] text@[j]),
            value == decimal_value(text@.take(i as int)),
        decreases n - i,
    {
        let b: u8 = text[i];
        if !digit(b) {
            return None;
        }
        proof {
            assert(text@.take(i + 1).drop_last() =~= text@.take(i as int));
            if is_decimal(text@) {
                lemma_decimal_prefix(text@, i + 1);
            }
        }
        let d: usize = (b - 0x30) as usize;
        match value.checked_mul(10) {
            None => {
                return None;
            },
            Some(shifted) => {
                match shifted.checked_add(d) {
                    None => {
                        return None;
                    },
                    Some(next) => {
                        value = next;
                    },
                }
            },
        }
        i += 1;
    }
    proof {
        assert(text@.take(n as int) =~= text@);
    }
    Some(value)
}

/// Converts an index counted from one, as the files write it, to an index
/// counted from zero. Fails with `DimensionMismatch` if the index is zero
/// or exceeds the basis size.
pub fn zero_based(index: usize, basis_size: usize) -> (r: Result<usize, ScfError>)
    ensures
        r == (if 1 <= index <= basis_size {
            Ok::<usize, ScfError>((index - 1) as usize)
        } else {
            Err(ScfError::DimensionMismatch)
        }),
{
    if index >= 1 && index <= basis_size {
        Ok(index - 1)
    } else {
        Err(ScfError::DimensionMismatch)
    }
}

/// Reads a line as a record of `arity` indices followed by a value. The
/// indices are returned as written; the value is returned as the field in
/// which it stands. `None` unless the line has exactly `arity + 1` fields
/// and each of the first `arity` is an index.
pub fn parse_record(line: &[u8], arity: usize) -> (r: Option<Record>)
    ensures
        match r {
            Some(record) => record_of(line@, arity as nat) == Some((record.indices@, record.value)),
            None => record_of(line@, arity as nat) is None,
        },
{
    let fields: Vec<Field> = split_fields(line);
    let count: usize = fields.len();
    if count == 0 || count - 1 != arity {
        return None;
    }
    let mut indices: Vec<usize> = Vec::new();
    let mut k: usize = 0;
    while k < arity
        invariant
            k <= arity,
            fields@.len() == arity + 1,
            fields@ == line_fields(line@),
            fields_of(line@, fields@),
            indices@.len() == k,
            forall|j: int|
                0 <= j < k ==> index_value(field_text(line@, #[trigger] fields@[j])) == Some(
                    indices@[j],
                ),
        decreases arity - k,
    {
        let field: Field = fields[k];
        assert(is_field(line@, field));
        let text: &[u8] = slice_subrange(line, field.start, field.end);
        match parse_index(text) {
            None => {
                return None;
            },
            Some(index) => {
                indices.push(index);
            },
        }
        k += 1;
    }
    let value: Field = fields[arity];
    proof {
        let expected = Seq::new(
            arity as nat,
            |j: int| index_value(field_text(line@, line_fields(line@)[j])).unwrap(),
        );
        assert(expected =~= indices@);
    }
    Some(Record { indices, value })
}

} // verus!
