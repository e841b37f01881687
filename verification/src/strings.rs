//! String utilities the library's contracts are phrased over: character
//! equality and lexicographic comparison of text, and parsing of decimal
//! integers.

use vstd::prelude::*;

verus! {

/// The first `n` characters of `a` and `b` agree.
pub open spec fn seq_eq_upto(a: Seq<char>, b: Seq<char>, n: int) -> bool {
    forall|j: int| 0 <= j < n ==> a[j] == b[j]
}

/// `a` and `b` agree before position `i` and `a` is strictly smaller at `i`.
pub open spec fn lt_at(a: Seq<char>, b: Seq<char>, i: int) -> bool {
    &&& 0 <= i < a.len()
    &&& i < b.len()
    &&& seq_eq_upto(a, b, i)
    &&& (a[i] as u32) < (b[i] as u32)
}

/// Lexicographic order on text by code point: `a` precedes `b` iff `a` is a
/// prefix of `b` or `a` is strictly smaller at the first difference.
pub open spec fn lex_le(a: Seq<char>, b: Seq<char>) -> bool {
    ||| (a.len() <= b.len() && seq_eq_upto(a, b, a.len() as int))
    ||| exists|i: int| #[trigger] lt_at(a, b, i)
}

proof fn lemma_char_eq(c1: char, c2: char)
    requires
        c1 as u32 == c2 as u32,
    ensures
        c1 == c2,
{
}

/// Somewhere below `n` the two sequences disagree; there is then a first
/// position where they do.
proof fn lemma_first_diff(a: Seq<char>, b: Seq<char>, n: int)
    requires
        0 <= n <= a.len(),
        n <= b.len(),
        !seq_eq_upto(a, b, n),
    ensures
        exists|i: int|
            0 <= i < n && seq_eq_upto(a, b, i) && (a[i] as u32) != (b[i] as u32),
    decreases n,
{
    if n > 0 {
        if seq_eq_upto(a, b, n - 1) {
            assert(a[n - 1] != b[n - 1]);
            assert(seq_eq_upto(a, b, n - 1) && (a[n - 1] as u32) != (b[n - 1] as u32)) by {
                if a[n - 1] as u32 == b[n - 1] as u32 {
                    lemma_char_eq(a[n - 1], b[n - 1]);
                }
            }
        } else {
            lemma_first_diff(a, b, n - 1);
        }
    }
}

/// The order is total: of any two texts, one precedes the other.
pub proof fn lemma_lex_le_total(a: Seq<char>, b: Seq<char>)
    ensures
        lex_le(a, b) || lex_le(b, a),
{
    let n = if a.len() <= b.len() { a.len() as int } else { b.len() as int };
    if seq_eq_upto(a, b, n) {
        assert(seq_eq_upto(b, a, n));
    } else {
        lemma_first_diff(a, b, n);
        let i = choose|i: int|
            0 <= i < n && seq_eq_upto(a, b, i) && (a[i] as u32) != (b[i] as u32);
        if (a[i] as u32) < (b[i] as u32) {
            assert(lt_at(a, b, i));
        } else {
            assert(seq_eq_upto(b, a, i));
            assert(lt_at(b, a, i));
        }
    }
}

/// The order is transitive.
pub proof fn lemma_lex_le_trans(a: Seq<char>, b: Seq<char>, c: Seq<char>)
    requires
        lex_le(a, b),
        lex_le(b, c),
    ensures
        lex_le(a, c),
{
    if a.len() <= b.len() && seq_eq_upto(a, b, a.len() as int) {
        if b.len() <= c.len() && seq_eq_upto(b, c, b.len() as int) {
            assert(seq_eq_upto(a, c, a.len() as int));
        } else {
            let i = choose|i: int| #[trigger] lt_at(b, c, i);
            if i < a.len() {
                assert(lt_at(a, c, i));
            } else {
                assert(seq_eq_upto(a, c, a.len() as int));
            }
        }
    } else {
        let i = choose|i: int| #[trigger] lt_at(a, b, i);
        if b.len() <= c.len() && seq_eq_upto(b, c, b.len() as int) {
            assert(lt_at(a, c, i));
        } else {
            let k = choose|k: int| #[trigger] lt_at(b, c, k);
            if i < k {
                assert(lt_at(a, c, i));
            } else if k < i {
                assert(lt_at(a, c, k));
            } else {
                assert(lt_at(a, c, i));
            }
        }
    }
}

/// Character-wise equality test for text.
pub fn str_eq(a: &str, b: &str) -> (r: bool)
    ensures
        r == (a@ == b@),
{
    let alen = a.unicode_len();
    let blen = b.unicode_len();
    if alen != blen {
        proof {
            assert(a@ != b@) by {
                if a@ == b@ {
                    assert(a@.len() == b@.len());
                }
            }
        }
        return false;
    }
    let mut i: usize = 0;
    while i < alen
        invariant
            i <= alen,
            alen == a@.len(),
            alen == b@.len(),
            seq_eq_upto(a@, b@, i as int),
        decreases alen - i,
    {
        let ca = a.get_char(i) as u32;
        let cb = b.get_char(i) as u32;
        if ca != cb {
            proof {
                assert(a@ != b@) by {
                    if a@ == b@ {
                        assert(a@[i as int] == b@[i as int]);
                    }
                }
            }
            return false;
        }
        proof {
            lemma_char_eq(a@[i as int], b@[i as int]);
        }
        i = i + 1;
    }
    proof {
        assert(a@ =~= b@);
    }
    true
}

/// Lexicographic comparison of text, the executable side of [`lex_le`].
pub fn str_le(a: &str, b: &str) -> (r: bool)
    ensures
        r == lex_le(a@, b@),
{
    let alen = a.unicode_len();
    let blen = b.unicode_len();
    let mut i: usize = 0;
    while i < alen && i < blen
        invariant
            i <= alen,
            i <= blen,
            alen == a@.len(),
            blen == b@.len(),
            seq_eq_upto(a@, b@, i as int),
        decreases alen - i,
    {
        let ca = a.get_char(i) as u32;
        let cb = b.get_char(i) as u32;
        if ca < cb {
            proof {
                assert(lt_at(a@, b@, i as int));
            }
            return true;
        }
        if ca > cb {
            proof {
                assert(!lex_le(a@, b@)) by {
                    if a@.len() <= b@.len() && seq_eq_upto(a@, b@, a@.len() as int) {
                        assert(a@[i as int] == b@[i as int]);
                    }
                    if exists|k: int| #[trigger] lt_at(a@, b@, k) {
                        let k = choose|k: int| #[trigger] lt_at(a@, b@, k);
                        if k < i {
                            assert(a@[k] == b@[k]);
                        } else if k == i {
                        } else {
                            assert(a@[i as int] == b@[i as int]);
                        }
                    }
                }
            }
            return false;
        }
        proof {
            lemma_char_eq(a@[i as int], b@[i as int]);
        }
        i = i + 1;
    }
    if alen <= blen {
        true
    } else {
        proof {
            assert(!lex_le(a@, b@)) by {
                if exists|k: int| #[trigger] lt_at(a@, b@, k) {
                    let k = choose|k: int| #[trigger] lt_at(a@, b@, k);
                    assert(k < b@.len());
                    assert(a@[k] == b@[k]);
                }
            }
        }
        false
    }
}

/// Whether `c` is a decimal digit.
pub open spec fn is_digit(c: char) -> bool {
    ('0' as u32) <= (c as u32) && (c as u32) <= ('9' as u32)
}

/// Numeric value of a decimal digit.
pub open spec fn digit_val(c: char) -> int {
    (c as u32) - ('0' as u32)
}

/// Every character of `s` is a decimal digit.
pub open spec fn all_digits(s: Seq<char>) -> bool {
    forall|i: int| 0 <= i < s.len() ==> is_digit(#[trigger] s[i])
}

/// The number a sequence of decimal digits denotes, most significant first.
pub open spec fn dec_value(s: Seq<char>) -> int
    decreases s.len(),
{
    if s.len() == 0 {
        0
    } else {
        dec_value(s.drop_last()) * 10 + digit_val(s.last())
    }
}

/// The digits `parse_u64` reads from `s`: a single leading `+` sign is
/// accepted and skipped.
pub open spec fn digits_of(s: Seq<char>) -> Seq<char> {
    if s.len() > 0 && s[0] == '+' {
        s.drop_first()
    } else {
        s
    }
}

/// `s` is text that denotes an unsigned decimal number: an optional `+`
/// sign followed by one or more digits.
pub open spec fn is_dec_string(s: Seq<char>) -> bool {
    digits_of(s).len() > 0 && all_digits(digits_of(s))
}

/// A digit string denotes a non-negative number.
proof fn lemma_dec_value_nonneg(s: Seq<char>)
    requires
        all_digits(s),
    ensures
        dec_value(s) >= 0,
    decreases s.len(),
{
    if s.len() > 0 {
        assert(all_digits(s.drop_last())) by {
            assert(forall|i: int|
                0 <= i < s.len() - 1 ==> #[trigger] s.drop_last()[i] == s[i]);
        }
        lemma_dec_value_nonneg(s.drop_last());
        assert(is_digit(s.last()));
    }
}

/// Extending a digit string on the right never shrinks its value.
proof fn lemma_dec_value_prefix(s: Seq<char>, n: int)
    requires
        all_digits(s),
        0 <= n <= s.len(),
    ensures
        dec_value(s) >= dec_value(s.take(n)),
    decreases s.len() - n,
{
    if n < s.len() {
        lemma_dec_value_prefix(s, n + 1);
        let t = s.take(n + 1);
        assert(t.drop_last() =~= s.take(n));
        assert(t.last() == s[n]);
        assert(all_digits(s.take(n))) by {
            assert(forall|i: int|
                0 <= i < n ==> #[trigger] s.take(n)[i] == s[i]);
        }
        lemma_dec_value_nonneg(s.take(n));
        assert(is_digit(s[n]));
        assert(dec_value(t) == dec_value(s.take(n)) * 10 + digit_val(s[n]));
    } else {
        assert(s.take(n) =~= s);
    }
}

/// Parse an unsigned decimal number: an optional `+` sign, then digits.
/// Returns the denoted value exactly when the text is such a number and the
/// value fits in a `u64`.
pub fn parse_u64(s: &str) -> (r: Option<u64>)
    ensures
        r is Some <==> is_dec_string(s@) && dec_value(digits_of(s@)) <= u64::MAX,
        r is Some ==> r->0 as int == dec_value(digits_of(s@)),
{
    let len = s.unicode_len();
    let mut start: usize = 0;
    if len > 0 && s.get_char(0) == '+' {
        start = 1;
    }
    proof {
        assert(digits_of(s@) =~= s@.skip(start as int));
    }
    let ghost d = s@.skip(start as int);
    if start >= len {
        return None;
    }
    let mut acc: u64 = 0;
    let mut i: usize = start;
    while i < len
        invariant
            start <= i <= len,
            start < len,
            len == s@.len(),
            d == s@.skip(start as int),
            d == digits_of(s@),
            all_digits(d.take(i - start)),
            acc as int == dec_value(d.take(i - start)),
        decreases len - i,
    {
        let c = s.get_char(i);
        let cv = c as u32;
        if cv < '0' as u32 || cv > '9' as u32 {
            proof {
                assert(!all_digits(d)) by {
                    assert(d[i - start] == s@[i as int]);
                    assert(!is_digit(d[i - start]));
                }
            }
            return None;
        }
        let dv = (cv - '0' as u32) as u64;
        proof {
            assert(d.take(i - start + 1).drop_last() =~= d.take(i - start));
            assert(d.take(i - start + 1).last() == s@[i as int]);
        }
        if acc > (u64::MAX - dv) / 10 {
            proof {
                assert(dec_value(d.take(i - start + 1)) > u64::MAX) by {
                    assert(dec_value(d.take(i - start + 1)) == acc as int * 10 + dv as int);
                };
                assert(all_digits(d.take(i - start + 1))) by {
                    assert(forall|j: int|
                        0 <= j < i - start ==> #[trigger] d.take(i - start + 1)[j] == d.take(
                            i - start,
                        )[j]);
                    assert(is_digit(d.take(i - start + 1)[i - start]));
                }
                if all_digits(d) {
                    lemma_dec_value_prefix(d, i - start + 1);
                    assert(dec_value(d) > u64::MAX);
                }
            }
            return None;
        }
        acc = acc * 10 + dv;
        i = i + 1;
    }
    proof {
        assert(d.take(i - start) =~= d);
    }
    Some(acc)
}

/// The character of a decimal digit.
pub open spec fn digit_char(d: int) -> char {
    if d == 0 {
        '0'
    } else if d == 1 {
        '1'
    } else if d == 2 {
        '2'
    } else if d == 3 {
        '3'
    } else if d == 4 {
        '4'
    } else if d == 5 {
        '5'
    } else if d == 6 {
        '6'
    } else if d == 7 {
        '7'
    } else if d == 8 {
        '8'
    } else {
        '9'
    }
}

/// The decimal digits of a non-negative number, most significant first and
/// without leading zeroes.
pub open spec fn nat_digits(n: int) -> Seq<char>
    recommends
        n >= 0,
    decreases n,
{
    if n < 10 {
        seq![digit_char(n)]
    } else {
        nat_digits(n / 10).push(digit_char(n % 10))
    }
}

/// The decimal rendering of an integer: its digits, with a leading minus
/// sign when it is negative.
pub open spec fn int_digits(n: int) -> Seq<char> {
    if n < 0 {
        seq!['-'] + nat_digits(-n)
    } else {
        nat_digits(n)
    }
}

/// The one-character text of a decimal digit.
fn digit_str(d: u64) -> (r: &'static str)
    requires
        d < 10,
    ensures
        r@ == seq![digit_char(d as int)],
{
    proof {
        reveal_strlit("0");
        reveal_strlit("1");
        reveal_strlit("2");
        reveal_strlit("3");
        reveal_strlit("4");
        reveal_strlit("5");
        reveal_strlit("6");
        reveal_strlit("7");
        reveal_strlit("8");
        reveal_strlit("9");
    }
    let r = match d {
        0 => "0",
        1 => "1",
        2 => "2",
        3 => "3",
        4 => "4",
        5 => "5",
        6 => "6",
        7 => "7",
        8 => "8",
        _ => "9",
    };
    proof {
        assert(r@ =~= seq![digit_char(d as int)]);
    }
    r
}

/// Render an unsigned number as its decimal digits.
pub fn render_u64(n: u64) -> (r: String)
    ensures
        r@ == nat_digits(n as int),
    decreases n,
{
    if n < 10 {
        let s = digit_str(n);
        s.to_owned()
    } else {
        let mut s = render_u64(n / 10);
        s.append(digit_str(n % 10));
        proof {
            assert(s@ =~= nat_digits(n as int / 10).push(digit_char(n as int % 10)));
        }
        s
    }
}

/// Render a signed number as its decimal digits, minus sign included.
pub fn render_i64(n: i64) -> (r: String)
    ensures
        r@ == int_digits(n as int),
{
    if n >= 0 {
        render_u64(n as u64)
    } else {
        let magnitude = (-(n as i128)) as u64;
        let digits = render_u64(magnitude);
        let mut s = String::new();
        s.append("-");
        s.append(digits.as_str());
        proof {
            reveal_strlit("-");
            assert(s@ =~= seq!['-'] + nat_digits(magnitude as int));
        }
        s
    }
}

} // verus!
