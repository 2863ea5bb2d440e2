use vstd::prelude::*;
use vstd::string::StrSliceExecFns;

use crate::util::push_char;

verus! {

/// Whether a token is a year: exactly four decimal digits.
pub open spec fn is_year_token(t: Seq<char>) -> bool {
    t.len() == 4 && forall|i: int| 0 <= i < 4 ==> '0' <= #[trigger] t[i] <= '9'
}

/// Whether a token is a year: exactly four decimal digits.
pub fn is_year(token: &str) -> (r: bool)
    ensures
        r == is_year_token(token@),
{
    let n = token.unicode_len();
    if n != 4 {
        return false;
    }
    let mut i: usize = 0;
    while i < 4
        invariant
            n == token@.len(),
            n == 4,
            0 <= i <= 4,
            forall|k: int| 0 <= k < i ==> '0' <= #[trigger] token@[k] <= '9',
        decreases 4 - i,
    {
        let c = token.get_char(i);
        if c < '0' || c > '9' {
            assert(token@[i as int] == c);
            return false;
        }
        i = i + 1;
    }
    true
}

/// The characters that a file name cannot hold on common file systems.
pub open spec fn is_forbidden(c: char) -> bool {
    c == '/' || c == '<' || c == '>' || c == ':' || c == '"' || c == '\\' || c == '|' || c == '?'
        || c == '*' || (c as u32) < 32 || c as u32 == 127
}

/// The character that stands for `c` in a file name.
pub open spec fn safe_char(c: char) -> char {
    if is_forbidden(c) {
        '_'
    } else {
        c
    }
}

/// The text with dots and spaces at its end removed.
pub open spec fn trim_end_dots_spaces(s: Seq<char>) -> Seq<char>
    decreases s.len(),
{
    if s.len() > 0 && (s.last() == ' ' || s.last() == '.') {
        trim_end_dots_spaces(s.drop_last())
    } else {
        s
    }
}

fn is_dot_or_space(c: char) -> (r: bool)
    ensures
        r == (c == ' ' || c == '.'),
{
    c == ' ' || c == '.'
}

/// Makes a text usable as a file name: each forbidden character and each
/// ASCII control character becomes `_`, and trailing spaces and dots go.
pub fn filter_filename(source: &str) -> (r: String)
    ensures
        r@ == trim_end_dots_spaces(source@.map_values(|c: char| safe_char(c))),
{
    let ghost mapped = source@.map_values(|c: char| safe_char(c));
    let n = source.unicode_len();
    let mut k: usize = n;
    assert(mapped.subrange(0, n as int) =~= mapped);
    while k > 0 && is_dot_or_space(source.get_char(k - 1))
        invariant
            n == source@.len(),
            0 <= k <= n,
            mapped == source@.map_values(|c: char| safe_char(c)),
            trim_end_dots_spaces(mapped) == trim_end_dots_spaces(mapped.subrange(0, k as int)),
        decreases k,
    {
        let ghost pre = mapped.subrange(0, k as int);
        assert(pre.last() == safe_char(source@[k - 1]));
        assert(pre.drop_last() =~= mapped.subrange(0, k - 1));
        k = k - 1;
    }
    assert(trim_end_dots_spaces(mapped) == mapped.subrange(0, k as int)) by {
        if k > 0 {
            assert(mapped.subrange(0, k as int).last() == safe_char(source@[k - 1]));
        } else {
            assert(mapped.subrange(0, 0) =~= Seq::<char>::empty());
        }
    }
    let mut out = String::new();
    let mut i: usize = 0;
    while i < k
        invariant
            n == source@.len(),
            0 <= i <= k <= n,
            mapped == source@.map_values(|c: char| safe_char(c)),
            out@ == mapped.subrange(0, i as int),
        decreases k - i,
    {
        let c = source.get_char(i);
        let d = if c == '/' || c == '<' || c == '>' || c == ':' || c == '"' || c == '\\' || c == '|'
            || c == '?' || c == '*' || (c as u32) < 32 || c as u32 == 127 {
            '_'
        } else {
            c
        };
        push_char(&mut out, d);
        assert(out@ =~= mapped.subrange(0, i as int + 1));
        i = i + 1;
    }
    out
}

} // verus!
