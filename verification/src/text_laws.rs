//! What the texts of ids, numbers and paths say, and how names are ordered.
use vstd::prelude::*;
use vstd::utf8::encode_utf8;
use crate::text::{bytes_lt, decimal, hex, joined, name_lt, parts_below};

verus! {

/// The value of a digit, of which the letters are lower case.
pub open spec fn digit_value(c: char) -> int {
    if '0' <= c && c <= '9' {
        c as int - '0' as int
    } else if 'a' <= c && c <= 'f' {
        c as int - 'a' as int + 10
    } else {
        -1
    }
}

/// Hex text has two digits for each byte, the upper four bits first.
pub proof fn hex_has_two_digits_per_byte(bytes: Seq<u8>, i: int)
    requires
        0 <= i < bytes.len(),
    ensures
        hex(bytes).len() == 2 * bytes.len(),
        0 <= digit_value(hex(bytes)[2 * i]) < 16,
        0 <= digit_value(hex(bytes)[2 * i + 1]) < 16,
        bytes[i] == digit_value(hex(bytes)[2 * i]) * 16 + digit_value(hex(bytes)[2 * i + 1]),
{
    assert((2 * i) / 2 == i && (2 * i + 1) / 2 == i);
    assert((2 * i) % 2 == 0 && (2 * i + 1) % 2 == 1);
}

/// The number that digits write, the greatest first.
pub open spec fn number_of(digits: Seq<char>) -> int
    decreases digits.len(),
{
    if digits.len() == 0 {
        0
    } else {
        number_of(digits.drop_last()) * 10 + digit_value(digits.last())
    }
}

/// Decimal text writes the number, in decimal digits and without a zero in front.
pub proof fn decimal_writes_the_number(n: nat)
    ensures
        number_of(decimal(n)) == n,
        decimal(n).len() > 0,
        forall|i: int|
            0 <= i < decimal(n).len() ==> 0 <= digit_value(#[trigger] decimal(n)[i]) < 10,
        decimal(n)[0] == '0' ==> n == 0,
    decreases n,
{
    let text = decimal(n);
    if n >= 10 {
        decimal_writes_the_number(n / 10);
        let front = decimal(n / 10);
        assert(text.drop_last() =~= front);
        assert(text[0] == front[0]);
        assert forall|i: int| 0 <= i < text.len() implies 0 <= digit_value(#[trigger] text[i]) < 10 by {
            if i < front.len() {
                assert(text[i] == front[i]);
            }
        }
    } else {
        assert(text.drop_last() =~= Seq::<char>::empty());
        assert(text[0] == text.last());
        assert(number_of(Seq::<char>::empty()) == 0);
    }
}

/// A relative name is joined to a directory by one slash, and stands alone where
/// there is no directory; an absolute one stands for itself.
pub proof fn joining_puts_one_slash(dir: Seq<char>, name: Seq<char>)
    ensures
        ({
            let relative = name.len() == 0 || name[0] != '/';
            let all = joined(dir, name);
            &&& !relative ==> all == name
            &&& relative && dir.len() == 0 ==> all == name
            &&& relative && dir.len() > 0 && dir.last() == '/' ==> all == dir + name
            &&& relative && dir.len() > 0 && dir.last() != '/' ==> {
                &&& all.len() == dir.len() + 1 + name.len()
                &&& all.take(dir.len() as int) == dir
                &&& all[dir.len() as int] == '/'
                &&& all.skip(dir.len() as int + 1) == name
            }
        }),
{
    let all = joined(dir, name);
    if dir.len() > 0 && dir.last() != '/' && (name.len() == 0 || name[0] != '/') {
        assert(all.take(dir.len() as int) =~= dir);
        assert(all.skip(dir.len() as int + 1) =~= name);
    }
    if dir.len() == 0 {
        assert(dir + name =~= name);
    }
}

/// Bytes are ordered by the first one in which they differ; a part of the front
/// comes before the whole.
pub proof fn first_difference_decides(front: Seq<u8>, a: Seq<u8>, b: Seq<u8>)
    ensures
        a.len() > 0 && b.len() > 0 && a[0] < b[0] ==> bytes_lt(front + a, front + b) && !bytes_lt(
            front + b,
            front + a,
        ),
        b.len() > 0 ==> bytes_lt(front, front + b) && !bytes_lt(front + b, front),
{
    if a.len() > 0 && b.len() > 0 && a[0] < b[0] {
        assert(parts_below(front + a, front + b, front.len() as int));
        crate::text::bytes_lt_irreflexive(front + a);
        if bytes_lt(front + b, front + a) {
            crate::text::bytes_lt_transitive(front + a, front + b, front + a);
        }
    }
    if b.len() > 0 {
        assert(parts_below(front, front + b, front.len() as int));
        crate::text::bytes_lt_irreflexive(front);
        if bytes_lt(front + b, front) {
            crate::text::bytes_lt_transitive(front, front + b, front);
        }
    }
}

/// Names are ordered by their encodings.
pub proof fn names_are_ordered_by_their_bytes(a: Seq<char>, b: Seq<char>)
    ensures
        name_lt(a, b) <==> bytes_lt(encode_utf8(a), encode_utf8(b)),
        !(name_lt(a, b) && name_lt(b, a)),
        a != b ==> name_lt(a, b) || name_lt(b, a),
{
    crate::text::name_lt_total(a, b);
    crate::text::name_lt_irreflexive(a);
    if name_lt(a, b) && name_lt(b, a) {
        crate::text::name_lt_transitive(a, b, a);
    }
}

} // verus!
