//! Text handling for the assemblers: comparing, splitting and reading tokens.
use vstd::prelude::*;
use vstd::string::{StrSliceExecFns, StringExecFns};

verus! {

/// What `str::trim` leaves of a text.
pub uninterp spec fn trim_of(s: Seq<char>) -> Seq<char>;

/// Whether `char::is_alphabetic` holds of a character.
pub uninterp spec fn is_alphabetic(c: char) -> bool;

/// A printable ASCII character other than the space, never white space.
pub open spec fn is_visible_ascii(c: char) -> bool {
    '!' <= c <= '~'
}

pub open spec fn is_ascii_letter(c: char) -> bool {
    'a' <= c <= 'z' || 'A' <= c <= 'Z'
}

/// What trimming leaves of `s`: `s` itself where it neither begins nor ends
/// with white space, else what `str::trim` gives.
pub open spec fn trim_view(s: Seq<char>) -> Seq<char> {
    if s.len() == 0 || (is_visible_ascii(s[0]) && is_visible_ascii(s.last())) {
        s
    } else {
        trim_of(s)
    }
}

/// Relies on `str::trim`: the text without leading and trailing white space,
/// no longer than it, and all of it where it neither begins nor ends with
/// white space.
#[verifier::external_body]
pub(crate) fn trimmed(s: &str) -> (r: &str)
    ensures
        r@ == trim_of(s@),
        r@.len() <= s@.len(),
        (s@.len() == 0 || (is_visible_ascii(s@[0]) && is_visible_ascii(s@.last()))) ==> r@ == s@,
{
    s.trim()
}

/// Relies on `char::is_alphabetic`: whether the character has the Unicode
/// Alphabetic property, which the ASCII letters have and the other printable
/// ASCII characters (digits, quotes, signs) do not.
#[verifier::external_body]
pub(crate) fn alphabetic(c: char) -> (r: bool)
    ensures
        r == is_alphabetic(c),
        is_ascii_letter(c) ==> r,
        is_visible_ascii(c) && !is_ascii_letter(c) ==> !r,
{
    c.is_alphabetic()
}

/// Do the two texts hold the same characters?
pub fn text_is(t: &str, lit: &str) -> (r: bool)
    ensures
        r == (t@ == lit@),
{
    let n = t.unicode_len();
    if n != lit.unicode_len() {
        return false;
    }
    let mut i: usize = 0;
    while i < n
        invariant
            n == t@.len(),
            n == lit@.len(),
            i <= n,
            forall|j: int| 0 <= j < i ==> t@[j] == lit@[j],
        decreases n - i,
    {
        if t.get_char(i) != lit.get_char(i) {
            return false;
        }
        i = i + 1;
    }
    assert(t@ =~= lit@);
    true
}

/// Does the text hold `c`?
pub fn has_char(t: &str, c: char) -> (r: bool)
    ensures
        r == t@.contains(c),
{
    let n = t.unicode_len();
    let mut i: usize = 0;
    while i < n
        invariant
            n == t@.len(),
            i <= n,
            forall|j: int| 0 <= j < i ==> t@[j] != c,
        decreases n - i,
    {
        if t.get_char(i) == c {
            return true;
        }
        i = i + 1;
    }
    false
}

/// The pieces of `s` between single spaces, empty pieces included: one more
/// piece than there are spaces.
pub open spec fn split_spec(s: Seq<char>) -> Seq<Seq<char>>
    decreases s.len(),
{
    if s.len() == 0 {
        seq![Seq::empty()]
    } else {
        let rest = split_spec(s.drop_last());
        if s.last() == ' ' {
            rest.push(Seq::empty())
        } else {
            rest.update(rest.len() - 1, rest.last().push(s.last()))
        }
    }
}

/// The texts of a list of strings.
pub open spec fn texts(v: Seq<String>) -> Seq<Seq<char>> {
    v.map_values(|x: String| x@)
}

/// The pieces of `s` between single spaces (empty pieces included).
pub fn split_spaces(s: &str) -> (r: Vec<String>)
    ensures
        texts(r@) == split_spec(s@),
        r@.len() >= 1,
{
    let n = s.unicode_len();
    let mut tokens: Vec<String> = Vec::new();
    let mut start: usize = 0;
    let mut i: usize = 0;
    assert(s@.subrange(0, 0) =~= Seq::<char>::empty());
    assert(texts(tokens@).push(s@.subrange(0, 0)) =~= seq![Seq::<char>::empty()]);
    while i < n
        invariant
            n == s@.len(),
            start <= i <= n,
            split_spec(s@.subrange(0, i as int)) == texts(tokens@).push(s@.subrange(start as int, i as int)),
        decreases n - i,
    {
        let c = s.get_char(i);
        let ghost pre = s@.subrange(0, i as int);
        let ghost piece = s@.subrange(start as int, i as int);
        let ghost whole = s@.subrange(0, i + 1);
        assert(whole.drop_last() =~= pre);
        assert(whole.last() == c);
        assert(split_spec(pre) == texts(tokens@).push(piece));
        let ghost tv = texts(tokens@);
        if c == ' ' {
            let t = s.substring_char(start, i).to_owned();
            tokens.push(t);
            start = i + 1;
            assert(texts(tokens@) =~= tv.push(piece));
            assert(s@.subrange(start as int, i + 1) =~= Seq::<char>::empty());
            assert(split_spec(whole) == split_spec(pre).push(Seq::empty()));
        } else {
            assert(piece.push(c) =~= s@.subrange(start as int, i + 1));
            assert(split_spec(whole) == tv.push(piece).update(tv.len() as int, piece.push(c)));
            assert(tv.push(piece).update(tv.len() as int, piece.push(c)) =~= tv.push(piece.push(c)));
        }
        i = i + 1;
        assert(split_spec(s@.subrange(0, i as int)) =~= texts(tokens@).push(s@.subrange(start as int, i as int)));
    }
    assert(s@.subrange(0, n as int) =~= s@);
    let ghost tv = texts(tokens@);
    tokens.push(s.substring_char(start, n).to_owned());
    assert(texts(tokens@) =~= tv.push(s@.subrange(start as int, n as int)));
    tokens
}

/// The decimal digit for `d` in `0..10`.
pub open spec fn digit_char(d: int) -> char {
    if d == 0 {
        '0'
    } else if d == 1 {
        '1'
    } else if d == 2 {
        '2'
    } else if d == 3 {
        '3'
    } else if d == 4 {
        '4'
    } else if d == 5 {
        '5'
    } else if d == 6 {
        '6'
    } else if d == 7 {
        '7'
    } else if d == 8 {
        '8'
    } else {
        '9'
    }
}

/// `n` written in decimal, without leading zeros.
pub open spec fn decimal(n: nat) -> Seq<char>
    decreases n,
{
    if n < 10 {
        seq![digit_char(n as int)]
    } else {
        decimal(n / 10) + seq![digit_char((n % 10) as int)]
    }
}

fn digit_str(d: usize) -> (r: &'static str)
    requires
        d < 10,
    ensures
        r@ == seq![digit_char(d as int)],
{
    if d == 0 {
        proof {
            reveal_strlit("0");
        }
        assert("0"@ =~= seq!['0']);
        "0"
    } else if d == 1 {
        proof {
            reveal_strlit("1");
        }
        assert("1"@ =~= seq!['1']);
        "1"
    } else if d == 2 {
        proof {
            reveal_strlit("2");
        }
        assert("2"@ =~= seq!['2']);
        "2"
    } else if d == 3 {
        proof {
            reveal_strlit("3");
        }
        assert("3"@ =~= seq!['3']);
        "3"
    } else if d == 4 {
        proof {
            reveal_strlit("4");
        }
        assert("4"@ =~= seq!['4']);
        "4"
    } else if d == 5 {
        proof {
            reveal_strlit("5");
        }
        assert("5"@ =~= seq!['5']);
        "5"
    } else if d == 6 {
        proof {
            reveal_strlit("6");
        }
        assert("6"@ =~= seq!['6']);
        "6"
    } else if d == 7 {
        proof {
            reveal_strlit("7");
        }
        assert("7"@ =~= seq!['7']);
        "7"
    } else if d == 8 {
        proof {
            reveal_strlit("8");
        }
        assert("8"@ =~= seq!['8']);
        "8"
    } else {
        proof {
            reveal_strlit("9");
        }
        assert("9"@ =~= seq!['9']);
        "9"
    }
}

/// `n` written in decimal.
pub fn decimal_string(n: usize) -> (r: String)
    ensures
        r@ == decimal(n as nat),
    decreases n,
{
    if n < 10 {
        digit_str(n).to_owned()
    } else {
        let head = decimal_string(n / 10);
        head.concat(digit_str(n % 10))
    }
}

pub open spec fn is_digit(c: char) -> bool {
    '0' <= c <= '9'
}

pub open spec fn all_digits(d: Seq<char>) -> bool {
    forall|i: int| 0 <= i < d.len() ==> is_digit(#[trigger] d[i])
}

/// The number that a run of decimal digits spells.
pub open spec fn digits_value(d: Seq<char>) -> int
    decreases d.len(),
{
    if d.len() == 0 {
        0
    } else {
        digits_value(d.drop_last()) * 10 + (d.last() as int - '0' as int)
    }
}

/// What `i64::from_str` reads: an optional sign, then one or more decimal
/// digits, of a value in range.
pub open spec fn int_literal(t: Seq<char>) -> Option<i64> {
    let signed = t.len() > 0 && (t[0] == '-' || t[0] == '+');
    let body = if signed {
        t.skip(1)
    } else {
        t
    };
    let v = if signed && t[0] == '-' {
        -digits_value(body)
    } else {
        digits_value(body)
    };
    if body.len() == 0 || !all_digits(body) || v < i64::MIN || v > i64::MAX {
        None
    } else {
        Some(v as i64)
    }
}

pub proof fn lemma_digits_nonneg(d: Seq<char>)
    requires
        all_digits(d),
    ensures
        digits_value(d) >= 0,
    decreases d.len(),
{
    if d.len() > 0 {
        assert(all_digits(d.drop_last()));
        assert(is_digit(d[d.len() - 1]));
        lemma_digits_nonneg(d.drop_last());
    }
}

/// Reads a decimal integer as `i64::from_str` does.
pub fn parse_int(t: &str) -> (r: Option<i64>)
    ensures
        r == int_literal(t@),
{
    let n = t.unicode_len();
    let signed = n > 0 && (t.get_char(0) == '-' || t.get_char(0) == '+');
    let negative = signed && t.get_char(0) == '-';
    let from: usize = if signed {
        1
    } else {
        0
    };
    let ghost body = if signed {
        t@.skip(1)
    } else {
        t@
    };
    if from >= n {
        return None;
    }
    // the value so far, held at no more than `cap`, which no i64 reaches
    let cap: u128 = 0x8000_0000_0000_0001;
    let mut acc: u128 = 0;
    let mut i: usize = from;
    while i < n
        invariant
            n == t@.len(),
            from <= i <= n,
            body == t@.subrange(from as int, n as int),
            body == (if t@.len() > 0 && (t@[0] == '-' || t@[0] == '+') {
                t@.skip(1)
            } else {
                t@
            }),
            all_digits(body.subrange(0, i - from)),
            acc == if digits_value(body.subrange(0, i - from)) < cap {
                digits_value(body.subrange(0, i - from))
            } else {
                cap as int
            },
            cap == 0x8000_0000_0000_0001,
        decreases n - i,
    {
        let c = t.get_char(i);
        if c < '0' || c > '9' {
            assert(!all_digits(body)) by {
                assert(body[i - from] == c);
            }
            return None;
        }
        let ghost prev = body.subrange(0, i - from);
        let ghost next = body.subrange(0, i + 1 - from);
        assert(next.drop_last() =~= prev);
        assert(next.last() == c);
        proof {
            lemma_digits_nonneg(prev);
        }
        let d = (c as u32 - '0' as u32) as u128;
        acc = acc * 10 + d;
        if acc > cap {
            acc = cap;
        }
        i = i + 1;
        assert(all_digits(next));
    }
    assert(body.subrange(0, n - from) =~= body);
    proof {
        lemma_digits_nonneg(body);
    }
    if negative {
        if acc > 0x8000_0000_0000_0000 {
            None
        } else {
            Some((0 - (acc as i128)) as i64)
        }
    } else {
        if acc > 0x7FFF_FFFF_FFFF_FFFF {
            None
        } else {
            Some(acc as i64)
        }
    }
}

} // verus!
