use vstd::prelude::*;
use vstd::string::StrSliceExecFns;
use vstd::string::StringExecFns;

verus! {

/// `c` is a decimal digit.
pub open spec fn is_digit(c: char) -> bool {
    48 <= c as int <= 57
}

/// The numeric value of a digit character.
pub open spec fn digit_val(c: char) -> int {
    c as int - 48
}

/// Every character of `s` is a decimal digit.
pub open spec fn is_digit_seq(s: Seq<char>) -> bool {
    forall|i: int| 0 <= i < s.len() ==> is_digit(#[trigger] s[i])
}

/// The value of `s` read as a decimal numeral.
pub open spec fn digits_val(s: Seq<char>) -> int
    decreases s.len(),
{
    if s.len() == 0 {
        0
    } else {
        digits_val(s.drop_last()) * 10 + digit_val(s.last())
    }
}

/// A digit sequence has a non-negative value.
proof fn lemma_digits_val_nonneg(s: Seq<char>)
    requires
        is_digit_seq(s),
    ensures
        digits_val(s) >= 0,
    decreases s.len(),
{
    if s.len() > 0 {
        assert(is_digit_seq(s.drop_last())) by {
            assert(forall|i: int| 0 <= i < s.len() - 1 ==> s.drop_last()[i] == s[i]);
        }
        lemma_digits_val_nonneg(s.drop_last());
    }
}

/// Reading a prefix of a digit sequence never yields a larger value.
proof fn lemma_digits_val_prefix_le(s: Seq<char>, i: int)
    requires
        is_digit_seq(s),
        0 <= i <= s.len(),
    ensures
        digits_val(s.take(i)) <= digits_val(s),
    decreases s.len() - i,
{
    if i < s.len() {
        lemma_digits_val_prefix_le(s, i + 1);
        assert(s.take(i + 1).drop_last() =~= s.take(i));
        assert(s.take(i + 1).last() == s[i]);
        lemma_digits_val_nonneg(s.take(i));
        assert(digits_val(s.take(i + 1)) == digits_val(s.take(i)) * 10 + digit_val(s[i]));
    } else {
        assert(s.take(i) =~= s);
    }
}

/// `s` is a non-empty digit string whose value fits in `usize`: exactly
/// the strings `parse_usize` accepts.
pub open spec fn numeral_ok(s: Seq<char>) -> bool {
    s.len() > 0 && is_digit_seq(s) && digits_val(s) <= usize::MAX
}

/// `c` is one of the ASCII whitespace characters stripped before parsing.
pub open spec fn is_ws(c: char) -> bool {
    c == ' ' || c == '\t' || c == '\n' || c == '\r'
}

/// `s` with leading ASCII whitespace removed.
pub open spec fn trim_front(s: Seq<char>) -> Seq<char>
    decreases s.len(),
{
    if s.len() > 0 && is_ws(s.first()) {
        trim_front(s.drop_first())
    } else {
        s
    }
}

/// `s` with trailing ASCII whitespace removed.
pub open spec fn trim_back(s: Seq<char>) -> Seq<char>
    decreases s.len(),
{
    if s.len() > 0 && is_ws(s.last()) {
        trim_back(s.drop_last())
    } else {
        s
    }
}

/// `s` with surrounding ASCII whitespace removed.
pub open spec fn trimmed(s: Seq<char>) -> Seq<char> {
    trim_back(trim_front(s))
}

proof fn lemma_trim_front_skip(s: Seq<char>, i: int)
    requires
        0 <= i <= s.len(),
        forall|j: int| 0 <= j < i ==> is_ws(#[trigger] s[j]),
        i < s.len() ==> !is_ws(s[i]),
    ensures
        trim_front(s) =~= s.skip(i),
    decreases i,
{
    if i == 0 {
        if s.len() > 0 {
            assert(!is_ws(s.first()));
        }
        assert(s.skip(0) =~= s);
    } else {
        assert(is_ws(s.first()));
        assert(trim_front(s) == trim_front(s.drop_first()));
        lemma_trim_front_skip(s.drop_first(), i - 1);
        assert(s.drop_first().skip(i - 1) =~= s.skip(i));
    }
}

proof fn lemma_trim_back_take(s: Seq<char>, i: int)
    requires
        0 <= i <= s.len(),
        forall|j: int| i <= j < s.len() ==> is_ws(#[trigger] s[j]),
        i > 0 ==> !is_ws(s[i - 1]),
    ensures
        trim_back(s) =~= s.take(i),
    decreases s.len() - i,
{
    if i == s.len() {
        if s.len() > 0 {
            assert(!is_ws(s.last()));
        }
        assert(s.take(i) =~= s);
    } else {
        assert(is_ws(s.last()));
        assert(trim_back(s) == trim_back(s.drop_last()));
        lemma_trim_back_take(s.drop_last(), i);
        assert(s.drop_last().take(i) =~= s.take(i));
    }
}

/// Parses `s` as an unsigned decimal integer.  Succeeds exactly on a
/// non-empty, all-digit string whose value fits in `usize`.
pub fn parse_usize(s: &str) -> (r: Option<usize>)
    ensures
        match r {
            Some(n) => s@.len() > 0 && is_digit_seq(s@) && digits_val(s@) <= usize::MAX
                && n == digits_val(s@),
            None => s@.len() == 0 || !is_digit_seq(s@) || digits_val(s@) > usize::MAX,
        },
{
    let len = s.unicode_len();
    if len == 0 {
        return None;
    }
    let mut i: usize = 0;
    let mut acc: usize = 0;
    while i < len
        invariant
            0 <= i <= len,
            len == s@.len(),
            forall|j: int| 0 <= j < i ==> is_digit(#[trigger] s@[j]),
            acc == digits_val(s@.take(i as int)),
        decreases len - i,
    {
        let c = s.get_char(i);
        if c < '0' || c > '9' {
            assert(!is_digit(s@[i as int]));
            return None;
        }
        let d: usize = (c as u32 as usize) - 48;
        proof {
            assert(s@.take(i + 1).drop_last() =~= s@.take(i as int));
            assert(s@.take(i + 1).last() == s@[i as int]);
        }
        let next = match acc.checked_mul(10) {
            Some(m) => m.checked_add(d),
            None => None,
        };
        match next {
            Some(n) => {
                acc = n;
            },
            None => {
                proof {
                    assert(is_digit_seq(s@.take(i + 1))) by {
                        assert(forall|j: int|
                            0 <= j < i + 1 ==> s@.take(i + 1)[j] == s@[j]);
                    }
                    if is_digit_seq(s@) {
                        lemma_digits_val_prefix_le(s@, i + 1);
                    }
                }
                return None;
            },
        }
        i = i + 1;
    }
    proof {
        assert(s@.take(len as int) =~= s@);
    }
    Some(acc)
}

/// The position of the first character of `s` that is not ASCII whitespace,
/// or the length of `s` when every character is whitespace.
fn first_non_ws(s: &str) -> (start: usize)
    ensures
        0 <= start <= s@.len(),
        forall|j: int| 0 <= j < start ==> is_ws(#[trigger] s@[j]),
        start < s@.len() ==> !is_ws(s@[start as int]),
{
    let len = s.unicode_len();
    let mut i: usize = 0;
    while i < len
        invariant
            0 <= i <= len,
            len == s@.len(),
            forall|j: int| 0 <= j < i ==> is_ws(#[trigger] s@[j]),
        decreases len - i,
    {
        let c = s.get_char(i);
        if !(c == ' ' || c == '\t' || c == '\n' || c == '\r') {
            return i;
        }
        i = i + 1;
    }
    len
}

/// The position just after the last character of `s` at or past `start`
/// that is not ASCII whitespace, or `start` when all of them are.
fn last_non_ws(s: &str, start: usize) -> (end: usize)
    requires
        start <= s@.len(),
    ensures
        start <= end <= s@.len(),
        forall|j: int| end <= j < s@.len() ==> is_ws(#[trigger] s@[j]),
        end > start ==> !is_ws(s@[end - 1]),
{
    let len = s.unicode_len();
    let mut i: usize = len;
    while i > start
        invariant
            start <= i <= len,
            len == s@.len(),
            forall|j: int| i <= j < len ==> is_ws(#[trigger] s@[j]),
        decreases i,
    {
        let c = s.get_char(i - 1);
        if !(c == ' ' || c == '\t' || c == '\n' || c == '\r') {
            return i;
        }
        i = i - 1;
    }
    start
}

/// Strips surrounding ASCII whitespace from `s`.
pub fn trim_ascii(s: &str) -> (r: &str)
    ensures
        r@ =~= trimmed(s@),
{
    let start = first_non_ws(s);
    let end = last_non_ws(s, start);
    proof {
        lemma_trim_front_skip(s@, start as int);
    }
    let r = s.substring_char(start, end);
    proof {
        let t = s@.skip(start as int);
        assert(forall|j: int| 0 <= j < t.len() ==> t[j] == s@[start + j]);
        if end > start {
            lemma_trim_back_take(t, end - start);
        } else {
            // everything from `start` on is whitespace, and if any character
            // remains it is whitespace and non-whitespace at once, so the
            // remainder is empty
            lemma_trim_back_take(t, 0);
        }
        assert(t.take(end - start) =~= s@.subrange(start as int, end as int));
    }
    r
}

/// The decimal numeral of the non-negative integer `n`.
pub open spec fn dec_digit_char(d: int) -> char {
    ((48 + d) as u8) as char
}

/// The sequence of digit characters that writes `n` in base ten.
pub open spec fn dec_rep(n: int) -> Seq<char>
    decreases n,
{
    if n < 10 {
        seq![dec_digit_char(n)]
    } else {
        dec_rep(n / 10).push(dec_digit_char(n % 10))
    }
}

/// Appends the decimal numeral of `n` to `out`.
pub fn append_usize(out: &mut String, n: usize)
    ensures
        final(out)@ == old(out)@ + dec_rep(n as int),
    decreases n,
{
    if n >= 10 {
        append_usize(out, n / 10);
    }
    let d = n % 10;
    let digits = "0123456789";
    proof {
        reveal_strlit("0123456789");
        assert(digits.is_ascii());
        assert(digits@.len() == 10);
    }
    let piece = digits.substring_ascii(d, d + 1);
    proof {
        assert(piece@ =~= seq![dec_digit_char(d as int)]);
        if n >= 10 {
            assert(old(out)@ + dec_rep(n as int) =~= (old(out)@ + dec_rep(
                n as int / 10,
            )) + piece@);
        } else {
            assert(old(out)@ + dec_rep(n as int) =~= old(out)@ + piece@);
        }
    }
    out.append(piece);
}

} // verus!
