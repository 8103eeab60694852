use vstd::prelude::*;
use vstd::std_specs::iter::IteratorSpec;
use itertools::Itertools;

verus! {

/// Relies on `String::push`: appends one character to the string.
pub assume_specification[ String::push ](s: &mut String, c: char)
    ensures
        final(s)@ == old(s)@.push(c),
;

/// Relies on `String::push_str`: appends a string slice to the string.
pub assume_specification[ String::push_str ](s: &mut String, other: &str)
    ensures
        final(s)@ == old(s)@ + other@,
;

/// The characters with the Unicode `White_Space` property, the set that
/// `char::is_whitespace` recognises.
pub open spec fn is_space(c: char) -> bool {
    ||| c == ' '
    ||| c == '\t'
    ||| c == '\n'
    ||| c == '\u{000B}'
    ||| c == '\u{000C}'
    ||| c == '\r'
    ||| c == '\u{0085}'
    ||| c == '\u{00A0}'
    ||| c == '\u{1680}'
    ||| ('\u{2000}' <= c && c <= '\u{200A}')
    ||| c == '\u{2028}'
    ||| c == '\u{2029}'
    ||| c == '\u{202F}'
    ||| c == '\u{205F}'
    ||| c == '\u{3000}'
}

/// Whether `c` is a blank character: the Unicode `White_Space` set.
pub fn is_space_char(c: char) -> (b: bool)
    ensures
        b == is_space(c),
{
    c == ' ' || c == '\t' || c == '\n' || c == '\u{000B}' || c == '\u{000C}' || c == '\r'
        || c == '\u{0085}' || c == '\u{00A0}' || c == '\u{1680}'
        || ('\u{2000}' <= c && c <= '\u{200A}') || c == '\u{2028}' || c == '\u{2029}'
        || c == '\u{202F}' || c == '\u{205F}' || c == '\u{3000}'
}

/// Collects the characters of a string slice into a vector.
pub fn str_to_chars(s: &str) -> (r: Vec<char>)
    ensures
        r@ == s@,
{
    broadcast use vstd::string::next_postcondition;

    let mut r: Vec<char> = Vec::new();
    let mut it = s.chars();
    loop
        invariant
            it.obeys_prophetic_iter_laws(),
            r@ + it.remaining() == s@,
        decreases s@.len() - r@.len(),
    {
        match it.next() {
            Some(c) => {
                r.push(c);
            },
            None => {
                proof {
                    assert(r@ =~= s@);
                }
                return r;
            },
        }
    }
}

/// The first character of the string, if any.
pub fn first_char(s: &String) -> (r: Option<char>)
    ensures
        r == (if s@.len() > 0 {
            Some(s@[0])
        } else {
            None::<char>
        }),
{
    broadcast use vstd::string::next_postcondition;

    let mut it = s.as_str().chars();
    it.next()
}

/// The last character of the string, if any.
pub fn last_char(s: &String) -> (r: Option<char>)
    ensures
        r == (if s@.len() > 0 {
            Some(s@.last())
        } else {
            None::<char>
        }),
{
    let chars = str_to_chars(s.as_str());
    if chars.len() > 0 {
        Some(chars[chars.len() - 1])
    } else {
        None
    }
}

/// Whether the string equals the given literal.
pub fn str_is(s: &String, w: &str) -> (b: bool)
    ensures
        b == (s@ == w@),
{
    let o: String = w.to_owned();
    *s == o
}

/// Whether the string is empty.
pub fn str_empty(s: &String) -> (b: bool)
    ensures
        b == (s@.len() == 0),
{
    s.as_str().is_empty()
}

/// The character for a single decimal digit.
pub open spec fn dec_digit(d: nat) -> char {
    if d == 0 {
        '0'
    } else if d == 1 {
        '1'
    } else if d == 2 {
        '2'
    } else if d == 3 {
        '3'
    } else if d == 4 {
        '4'
    } else if d == 5 {
        '5'
    } else if d == 6 {
        '6'
    } else if d == 7 {
        '7'
    } else if d == 8 {
        '8'
    } else {
        '9'
    }
}

/// Decimal digits of `n`, most significant first.
pub open spec fn dec_seq(n: nat) -> Seq<char>
    decreases n,
{
    if n < 10 {
        seq![dec_digit(n)]
    } else {
        dec_seq(n / 10) + seq![dec_digit(n % 10)]
    }
}

fn digit_char(d: usize) -> (c: char)
    requires
        d < 10,
    ensures
        c == dec_digit(d as nat),
{
    if d == 0 {
        '0'
    } else if d == 1 {
        '1'
    } else if d == 2 {
        '2'
    } else if d == 3 {
        '3'
    } else if d == 4 {
        '4'
    } else if d == 5 {
        '5'
    } else if d == 6 {
        '6'
    } else if d == 7 {
        '7'
    } else if d == 8 {
        '8'
    } else {
        '9'
    }
}

/// Renders `n` in decimal.
pub fn fmt_usize(n: usize) -> (r: String)
    ensures
        r@ == dec_seq(n as nat),
    decreases n,
{
    if n < 10 {
        let mut s = String::new();
        s.push(digit_char(n));
        s
    } else {
        let mut s = fmt_usize(n / 10);
        s.push(digit_char(n % 10));
        proof {
            assert(s@ =~= dec_seq(n as nat));
        }
        s
    }
}

/// Every character of `s` is a decimal digit.
pub open spec fn all_digits(s: Seq<char>) -> bool {
    forall|i: int| 0 <= i < s.len() ==> '0' <= #[trigger] s[i] && s[i] <= '9'
}

/// The numeric value of a decimal digit character, 0 for any other.
pub open spec fn char_digit(c: char) -> nat {
    if '0' <= c && c <= '9' {
        (c as int - '0' as int) as nat
    } else {
        0
    }
}

/// The numeric value of a digit string, read from the left.
pub open spec fn digits_val(s: Seq<char>) -> nat
    decreases s.len(),
{
    if s.len() == 0 {
        0
    } else {
        digits_val(s.drop_last()) * 10 + char_digit(s.last())
    }
}

/// `s` without one leading `+`, the sign `usize::from_str` accepts.
pub open spec fn strip_plus(s: Seq<char>) -> Seq<char> {
    if s.len() > 0 && s[0] == '+' {
        s.drop_first()
    } else {
        s
    }
}

/// Whether `s` parses as a `usize`: an optional `+`, then one or more
/// decimal digits, with a value that fits.
pub open spec fn parses_as_usize(s: Seq<char>) -> bool {
    &&& strip_plus(s).len() > 0
    &&& all_digits(strip_plus(s))
    &&& digits_val(strip_plus(s)) <= usize::MAX
}

/// Parses a decimal `usize`, as `str::parse::<usize>` does.
pub fn parse_usize(s: &String) -> (r: Option<usize>)
    ensures
        r is Some <==> parses_as_usize(s@),
        r is Some ==> r->0 == digits_val(strip_plus(s@)),
{
    let chars = str_to_chars(s.as_str());
    let mut i: usize = 0;
    if chars.len() > 0 && chars[0] == '+' {
        i = 1;
    }
    let ghost t = strip_plus(s@);
    if i >= chars.len() {
        return None;
    }
    let mut v: usize = 0;
    let start = i;
    proof {
        assert(t =~= s@.skip(start as int));
        assert(t.take(0) =~= Seq::<char>::empty());
    }
    while i < chars.len()
        invariant
            start <= i <= chars.len(),
            chars@ == s@,
            start == (if s@.len() > 0 && s@[0] == '+' { 1int } else { 0int }),
            t == strip_plus(s@),
            t == s@.skip(start as int),
            all_digits(t.take(i - start)),
            v == digits_val(t.take(i - start)),
        decreases chars.len() - i,
    {
        let c = chars[i];
        if c < '0' || c > '9' {
            proof {
                assert(t[i - start] == c);
            }
            return None;
        }
        proof {
            assert(t.take(i - start + 1).drop_last() =~= t.take(i - start));
            assert(t.take(i - start + 1).last() == t[i - start]);
            assert(digits_val(t.take(i - start + 1)) == v * 10 + char_digit(c));
        }
        let d = (c as u32 - '0' as u32) as usize;
        let v10 = match v.checked_mul(10) {
            Some(x) => x,
            None => {
                proof {
                    lemma_prefix_overflow(t, i - start + 1);
                }
                return None;
            },
        };
        let nv = match v10.checked_add(d) {
            Some(x) => x,
            None => {
                proof {
                    lemma_prefix_overflow(t, i - start + 1);
                }
                return None;
            },
        };
        v = nv;
        i = i + 1;
    }
    proof {
        assert(t.take(i - start) =~= t);
    }
    Some(v)
}

proof fn lemma_prefix_overflow(t: Seq<char>, k: int)
    requires
        0 <= k <= t.len(),
        digits_val(t.take(k)) > usize::MAX,
    ensures
        digits_val(t) > usize::MAX,
    decreases t.len() - k,
{
    if k < t.len() {
        let a = digits_val(t.take(k));
        let b = digits_val(t.take(k + 1));
        assert(t.take(k + 1).drop_last() =~= t.take(k));
        assert(b == a * 10 + char_digit(t.take(k + 1).last()));
        assert(a * 10 >= a) by (nonlinear_arith);
        lemma_prefix_overflow(t, k + 1);
    } else {
        assert(t.take(k) =~= t);
    }
}

/// The parts concatenated with `sep` between neighbours.
pub open spec fn spec_join(parts: Seq<Seq<char>>, sep: Seq<char>) -> Seq<char>
    decreases parts.len(),
{
    if parts.len() == 0 {
        Seq::empty()
    } else if parts.len() == 1 {
        parts[0]
    } else {
        parts[0] + sep + spec_join(parts.drop_first(), sep)
    }
}

/// Relies on `itertools::Itertools::join`: concatenates the elements'
/// `Display` output with `sep` between neighbours; for `String` elements
/// the `Display` output is the string itself.
#[verifier::external_body]
pub fn join_with(parts: &Vec<String>, sep: &str) -> (r: String)
    ensures
        r@ == spec_join(parts@.map_values(|p: String| p@), sep@),
{
    parts.iter().join(sep)
}

} // verus!
