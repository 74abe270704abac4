//! What holds of selector resolution for every header and every selector.

use vstd::prelude::*;
use crate::csvutil::{
    classify,
    range_bounds,
    resolve,
    resolve_index,
    resolve_name,
    resolve_range,
    resolve_selector,
    resolve_token,
    resolve_tokens,
    Selector,
};
use crate::error::ColumnErrorView;
use crate::number::{
    all_digits,
    decimal,
    is_digit,
    lemma_decimal_is_digits,
    lemma_parse_signed_decimal,
    lemma_parse_unsigned_decimal,
    parse_digits,
    parse_signed,
    signed_decimal,
};
use crate::text::{index_of, lemma_index_of_unique};

verus! {

/// A list of one selector resolves as that selector does.
pub proof fn lemma_resolve_single(header: Seq<Seq<char>>, token: Seq<char>)
    ensures
        resolve(header, Some(seq![token])) == resolve_token(header, token),
{
    let tokens = seq![token];
    assert(tokens.drop_last() == Seq::<Seq<char>>::empty());
    assert(tokens.last() == token);
    assert(resolve_tokens(header, tokens.drop_last()) == Ok::<Seq<int>, ColumnErrorView>(
        Seq::empty(),
    ));
    match resolve_token(header, token) {
        Ok(indices) => {
            assert(Seq::<int>::empty() + indices == indices);
        },
        Err(_) => {},
    }
}

/// The selectors of a list are resolved one by one and their indices joined
/// in the order of the list.
pub proof fn lemma_resolve_concat(
    header: Seq<Seq<char>>,
    first: Seq<Seq<char>>,
    second: Seq<Seq<char>>,
)
    ensures
        resolve_tokens(header, first + second) == match resolve_tokens(header, first) {
            Err(e) => Err(e),
            Ok(a) => match resolve_tokens(header, second) {
                Err(e) => Err(e),
                Ok(b) => Ok(a + b),
            },
        },
    decreases second.len(),
{
    if second.len() == 0 {
        assert(first + second == first);
        match resolve_tokens(header, first) {
            Ok(a) => {
                assert(a + Seq::<int>::empty() == a);
            },
            Err(_) => {},
        }
    } else {
        lemma_resolve_concat(header, first, second.drop_last());
        assert((first + second).drop_last() == first + second.drop_last());
        assert((first + second).last() == second.last());
        match (
            resolve_tokens(header, first),
            resolve_tokens(header, second.drop_last()),
            resolve_token(header, second.last()),
        ) {
            (Ok(a), Ok(b), Ok(c)) => {
                assert((a + b) + c == a + (b + c));
            },
            _ => {},
        }
    }
}

/// Without selectors every column is selected, in header order.
pub proof fn lemma_resolve_all(header: Seq<Seq<char>>)
    ensures
        resolve(header, None) matches Ok(indices) && indices.len() == header.len() && forall|
            i: int,
        |
            0 <= i < header.len() ==> indices[i] == i,
{
}

/// A column number `k` from 1 to the number of columns selects the column at
/// index `k - 1`; from -1 down to minus the number of columns it selects the
/// column at that distance from the end. `k` is written in decimal and fits
/// in 32 bits.
pub proof fn lemma_resolve_number(header: Seq<Seq<char>>, k: int)
    requires
        k != 0,
        -header.len() <= k <= header.len(),
        i32::MIN <= k <= i32::MAX,
    ensures
        resolve(header, Some(seq![signed_decimal(k)])) == Ok::<Seq<int>, ColumnErrorView>(
            seq![
                if k > 0 {
                    k - 1
                } else {
                    header.len() + k
                },
            ],
        ),
{
    lemma_resolve_single(header, signed_decimal(k));
    lemma_parse_signed_decimal(k, i32::MIN as int, i32::MAX as int);
}

/// The column number 0 is refused.
pub proof fn lemma_resolve_zero(header: Seq<Seq<char>>)
    ensures
        resolve(header, Some(seq![decimal(0)])) == Err::<Seq<int>, ColumnErrorView>(
            ColumnErrorView::ColumnZeroInvalid,
        ),
        decimal(0) == seq!['0'],
{
    lemma_resolve_single(header, signed_decimal(0));
    lemma_parse_signed_decimal(0, i32::MIN as int, i32::MAX as int);
}

/// A column number beyond the number of columns, in either direction, is
/// refused with the number and the number of columns. `k` is written in
/// decimal and fits in 32 bits.
pub proof fn lemma_resolve_out_of_range(header: Seq<Seq<char>>, k: int)
    requires
        k < -header.len() || k > header.len(),
        i32::MIN <= k <= i32::MAX,
    ensures
        resolve(header, Some(seq![signed_decimal(k)])) == Err::<Seq<int>, ColumnErrorView>(
            ColumnErrorView::ColumnOutOfRange(k, header.len()),
        ),
{
    lemma_resolve_single(header, signed_decimal(k));
    lemma_parse_signed_decimal(k, i32::MIN as int, i32::MAX as int);
}

/// The text of the range from `a` to `b`.
pub open spec fn range_text(a: nat, b: nat) -> Seq<char> {
    decimal(a) + seq!['-'] + decimal(b)
}

/// The text of a range reads as that range, not as a number.
pub proof fn lemma_classify_range(a: nat, b: nat)
    requires
        a <= usize::MAX,
        b <= usize::MAX,
    ensures
        classify(range_text(a, b)) == Selector::Range(a, b),
{
    let s = range_text(a, b);
    let da = decimal(a);
    let db = decimal(b);
    lemma_decimal_is_digits(a);
    lemma_decimal_is_digits(b);
    let i = da.len() as int;
    assert(s[i] == '-');
    assert(forall|j: int| 0 <= j < i ==> s[j] == da[j]);
    assert(is_digit(da[0]));
    assert(s[0] == da[0]);
    // not a number: the sign in the middle is no digit
    assert(!is_digit(s[i]));
    assert(parse_signed(s, i32::MIN as int, i32::MAX as int) is None);
    // a range: the first `-` is the one between the two numbers
    assert forall|j: int| 0 <= j < i implies s[j] != '-' by {
        assert(is_digit(da[j]));
    }
    lemma_index_of_unique(s, '-', i);
    assert(s.take(i) == da);
    assert(s.skip(i + 1) == db);
    lemma_parse_unsigned_decimal(a, usize::MAX as nat);
    lemma_parse_unsigned_decimal(b, usize::MAX as nat);
}

/// A range written `a-b` whose start is not below its end is refused as not
/// increasing.
pub proof fn lemma_resolve_range_not_increasing(header: Seq<Seq<char>>, a: nat, b: nat)
    requires
        a <= usize::MAX,
        b <= usize::MAX,
        a >= b,
    ensures
        resolve(header, Some(seq![range_text(a, b)])) == Err::<Seq<int>, ColumnErrorView>(
            ColumnErrorView::RangeNotIncreasing(a, b),
        ),
{
    lemma_resolve_single(header, range_text(a, b));
    lemma_classify_range(a, b);
}

/// An increasing range written `a-b` that ends beyond the last column is
/// refused as out of bounds.
pub proof fn lemma_resolve_range_out_of_bounds(header: Seq<Seq<char>>, a: nat, b: nat)
    requires
        a <= usize::MAX,
        b <= usize::MAX,
        a < b,
        b > header.len(),
    ensures
        resolve(header, Some(seq![range_text(a, b)])) == Err::<Seq<int>, ColumnErrorView>(
            ColumnErrorView::RangeOutOfBounds(a, b, header.len()),
        ),
{
    lemma_resolve_single(header, range_text(a, b));
    lemma_classify_range(a, b);
}

/// An increasing range written `a-b` that starts at column 1 or later and
/// ends within the header selects the indices `a - 1` to `b - 1`, in order.
pub proof fn lemma_resolve_range(header: Seq<Seq<char>>, a: nat, b: nat)
    requires
        1 <= a < b <= header.len(),
        b <= usize::MAX,
    ensures
        resolve(header, Some(seq![range_text(a, b)])) matches Ok(indices) && indices.len() == b
            - a + 1 && forall|i: int| 0 <= i < indices.len() ==> indices[i] == a - 1 + i,
{
    lemma_resolve_single(header, range_text(a, b));
    lemma_classify_range(a, b);
}

/// A selector that is neither a number nor a range selects the first column
/// that has it as its name.
pub proof fn lemma_resolve_name_found(header: Seq<Seq<char>>, name: Seq<char>, i: int)
    requires
        classify(name) == Selector::Name(name),
        0 <= i < header.len(),
        header[i] == name,
        forall|j: int| 0 <= j < i ==> header[j] != name,
    ensures
        resolve(header, Some(seq![name])) == Ok::<Seq<int>, ColumnErrorView>(seq![i]),
{
    lemma_resolve_single(header, name);
    lemma_index_of_unique(header, name, i);
}

/// A selector that is neither a number nor a range, and that no column has
/// as its name, is refused as not found.
pub proof fn lemma_resolve_name_absent(header: Seq<Seq<char>>, name: Seq<char>)
    requires
        classify(name) == Selector::Name(name),
        forall|j: int| 0 <= j < header.len() ==> header[j] != name,
    ensures
        resolve(header, Some(seq![name])) == Err::<Seq<int>, ColumnErrorView>(
            ColumnErrorView::ColumnNotFound(name),
        ),
{
    lemma_resolve_single(header, name);
    lemma_index_of_unique(header, name, header.len() as int);
}

} // verus!
