use vstd::prelude::*;
use vstd::string::{StrSliceExecFns, StringExecFns};

verus! {

/// Relies on `String::push`: the character is appended.
#[verifier::external_body]
pub(crate) fn push_char(s: &mut String, c: char)
    ensures
        final(s)@ == old(s)@.push(c),
{
    s.push(c)
}

/// The pieces laid end to end with `glue` between each neighbouring pair.
pub open spec fn joined(pieces: Seq<Seq<char>>, glue: Seq<char>) -> Seq<char>
    decreases pieces.len(),
{
    if pieces.len() == 0 {
        Seq::empty()
    } else if pieces.len() == 1 {
        pieces[0]
    } else {
        joined(pieces.drop_last(), glue) + glue + pieces.last()
    }
}

/// The views of a slice of string slices.
pub open spec fn str_views(pieces: Seq<&str>) -> Seq<Seq<char>> {
    pieces.map_values(|p: &str| p@)
}

/// Joins the pieces with `glue` between each neighbouring pair.
pub fn join(pieces: &[&str], glue: &str) -> (r: String)
    ensures
        r@ == joined(str_views(pieces@), glue@),
{
    let mut buff = String::new();
    let n = pieces.len();
    if n == 0 {
        return buff;
    }
    buff.append(pieces[0]);
    let mut i: usize = 1;
    while i < n
        invariant
            1 <= i <= n,
            n == pieces@.len(),
            buff@ == joined(str_views(pieces@.subrange(0, i as int)), glue@),
        decreases n - i,
    {
        proof {
            let next = str_views(pieces@.subrange(0, i as int + 1));
            assert(next.drop_last() =~= str_views(pieces@.subrange(0, i as int)));
        }
        buff.append(glue);
        buff.append(pieces[i]);
        i = i + 1;
    }
    proof {
        assert(pieces@.subrange(0, n as int) =~= pieces@);
    }
    buff
}

/// The value of a decimal digit.
pub open spec fn digit_value(c: char) -> int {
    c as int - '0' as int
}

/// Whether every character is a decimal digit.
pub open spec fn all_digits(s: Seq<char>) -> bool {
    forall|i: int| 0 <= i < s.len() ==> '0' <= #[trigger] s[i] <= '9'
}

/// The value of a numeral of decimal digits.
pub open spec fn decimal_value(s: Seq<char>) -> int
    decreases s.len(),
{
    if s.len() == 0 {
        0
    } else {
        decimal_value(s.drop_last()) * 10 + digit_value(s.last())
    }
}

/// Whether the text starts with a minus sign.
pub open spec fn is_negative(s: Seq<char>) -> bool {
    s.len() > 0 && s[0] == '-'
}

/// The digits of a numeral: the text after one leading `+` or `-`, if any.
pub open spec fn numeral_digits(s: Seq<char>) -> Seq<char> {
    if s.len() > 0 && (s[0] == '-' || s[0] == '+') {
        s.drop_first()
    } else {
        s
    }
}

/// The value of a non-empty numeral of decimal digits, where it is at most
/// `limit`.
pub open spec fn bounded_value(d: Seq<char>, limit: int) -> Option<int> {
    if d.len() > 0 && all_digits(d) && decimal_value(d) <= limit {
        Some(decimal_value(d))
    } else {
        None
    }
}

/// The number a text denotes, as `i32`'s `FromStr` reads it: an optional `+`
/// or `-`, then a non-empty numeral of decimal digits, whose value fits in an
/// `i32`.
pub open spec fn parsed_number(s: Seq<char>) -> Option<i32> {
    if is_negative(s) {
        match bounded_value(numeral_digits(s), 2147483648) {
            Some(v) => Some((-v) as i32),
            None => None,
        }
    } else {
        match bounded_value(numeral_digits(s), 2147483647) {
            Some(v) => Some(v as i32),
            None => None,
        }
    }
}

proof fn lemma_decimal_prefix(s: Seq<char>, i: int)
    requires
        all_digits(s),
        0 <= i <= s.len(),
    ensures
        0 <= decimal_value(s.subrange(0, i)) <= decimal_value(s),
    decreases s.len() - i,
{
    if i < s.len() {
        lemma_decimal_prefix(s, i + 1);
        assert(s.subrange(0, i + 1).drop_last() =~= s.subrange(0, i));
        assert('0' <= s[i] <= '9');
    } else {
        assert(s.subrange(0, i) =~= s);
        lemma_decimal_nonneg(s);
    }
}

proof fn lemma_decimal_nonneg(s: Seq<char>)
    requires
        all_digits(s),
    ensures
        decimal_value(s) >= 0,
    decreases s.len(),
{
    if s.len() > 0 {
        assert('0' <= s[s.len() - 1] <= '9');
        assert(all_digits(s.drop_last())) by {
            assert forall|i: int| 0 <= i < s.drop_last().len() implies '0' <= #[trigger] s.drop_last()[i] <= '9' by {
                assert(s.drop_last()[i] == s[i]);
            }
        }
        lemma_decimal_nonneg(s.drop_last());
    }
}

/// Reads a numeral of decimal digits whose value is at most `limit`.
fn unsigned_value(text: &str, limit: i64) -> (r: Option<i64>)
    requires
        0 <= limit <= 2147483648,
    ensures
        match r {
            Some(x) => bounded_value(text@, limit as int) == Some(x as int),
            None => bounded_value(text@, limit as int) is None,
        },
        r matches Some(v) ==> 0 <= v <= limit,
{
    let n = text.unicode_len();
    if n == 0 {
        return None;
    }
    let mut i: usize = 0;
    while i < n
        invariant
            n == text@.len(),
            0 <= i <= n,
            forall|k: int| 0 <= k < i ==> '0' <= #[trigger] text@[k] <= '9',
        decreases n - i,
    {
        let c = text.get_char(i);
        if c < '0' || c > '9' {
            assert(!all_digits(text@)) by {
                assert(text@[i as int] == c);
            }
            return None;
        }
        i = i + 1;
    }
    assert(all_digits(text@));
    let mut value: i64 = 0;
    let mut j: usize = 0;
    while j < n
        invariant
            n == text@.len(),
            n > 0,
            0 <= j <= n,
            0 <= limit <= 2147483648,
            all_digits(text@),
            value == decimal_value(text@.subrange(0, j as int)),
        decreases n - j,
    {
        proof {
            lemma_decimal_prefix(text@, j as int);
            lemma_decimal_prefix(text@, j as int + 1);
            assert(text@.subrange(0, j as int + 1).drop_last() =~= text@.subrange(0, j as int));
            assert('0' <= text@[j as int] <= '9');
        }
        let c = text.get_char(j);
        let d = (c as u32 - '0' as u32) as i64;
        if value > 214748364 {
            assert(decimal_value(text@.subrange(0, j as int + 1)) > limit);
            assert(decimal_value(text@) > limit);
            return None;
        }
        value = value * 10 + d;
        j = j + 1;
    }
    assert(text@.subrange(0, n as int) =~= text@);
    proof {
        lemma_decimal_nonneg(text@);
    }
    if value > limit {
        None
    } else {
        Some(value)
    }
}

/// Reads a number as `i32`'s `FromStr` does: an optional `+` or `-`, then
/// decimal digits. `None` where the text is not of that form or the number
/// lies outside the range of an `i32`.
pub fn parse(text: &str) -> (r: Option<i32>)
    ensures
        r == parsed_number(text@),
{
    let n = text.unicode_len();
    let mut start: usize = 0;
    let mut negative = false;
    if n > 0 {
        let c = text.get_char(0);
        if c == '-' || c == '+' {
            start = 1;
            negative = c == '-';
        }
    }
    let digits = text.substring_char(start, n);
    assert(digits@ =~= numeral_digits(text@));
    assert(negative == is_negative(text@));
    if negative {
        match unsigned_value(digits, 2147483648) {
            Some(v) => {
                let m = -v;
                assert(bounded_value(numeral_digits(text@), 2147483648) == Some(v as int));
                assert(-2147483648 <= m <= 0);
                Some(m as i32)
            },
            None => None,
        }
    } else {
        match unsigned_value(digits, 2147483647) {
            Some(v) => {
                assert(bounded_value(numeral_digits(text@), 2147483647) == Some(v as int));
                Some(v as i32)
            },
            None => None,
        }
    }
}

} // verus!
