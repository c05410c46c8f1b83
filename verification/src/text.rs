//! Text: the few string operations that the configuration and report code needs, over sequences
//! of characters.
use vstd::prelude::*;
use vstd::string::StrSliceExecFns;
use vstd::string::StringExecFns;
use vstd::utf8::{encode_utf8, encode_utf8_decode_utf8};

verus! {

/// `String::push` appends one character.
#[verifier::external_body]
pub(crate) fn push_char(s: &mut String, c: char)
    ensures
        final(s)@ == old(s)@.push(c),
{
    s.push(c);
}

/// Whether `c` has the Unicode property White_Space.
pub open spec fn is_white(c: char) -> bool {
    let u = c as u32;
    ||| 9 <= u <= 13
    ||| u == 32
    ||| u == 0x85
    ||| u == 0xA0
    ||| u == 0x1680
    ||| 0x2000 <= u <= 0x200A
    ||| u == 0x2028
    ||| u == 0x2029
    ||| u == 0x202F
    ||| u == 0x205F
    ||| u == 0x3000
}

fn white(c: char) -> (r: bool)
    ensures
        r == is_white(c),
{
    let u: u32 = c as u32;
    (9 <= u && u <= 13) || u == 32 || u == 0x85 || u == 0xA0 || u == 0x1680 || (0x2000 <= u && u
        <= 0x200A) || u == 0x2028 || u == 0x2029 || u == 0x202F || u == 0x205F || u == 0x3000
}

/// `s` without its leading white space.
pub open spec fn trim_start(s: Seq<char>) -> Seq<char>
    decreases s.len(),
{
    if s.len() > 0 && is_white(s[0]) {
        trim_start(s.drop_first())
    } else {
        s
    }
}

/// `s` without its trailing white space.
pub open spec fn trim_end(s: Seq<char>) -> Seq<char>
    decreases s.len(),
{
    if s.len() > 0 && is_white(s.last()) {
        trim_end(s.drop_last())
    } else {
        s
    }
}

/// `s` without the white space at both its ends.
pub open spec fn trimmed(s: Seq<char>) -> Seq<char> {
    trim_end(trim_start(s))
}

/// The characters of `s`.
pub fn chars_of(s: &str) -> (r: Vec<char>)
    ensures
        r@ == s@,
{
    let mut out: Vec<char> = Vec::new();
    for c in it: s.chars()
        invariant
            out@ == it.seq().take(it.index() as int),
            it.seq() == s@,
    {
        out.push(c);
        assert(it.seq().take(it.index() + 1) =~= it.seq().take(it.index() as int).push(c));
    }
    assert(s@.take(s@.len() as int) =~= s@);
    out
}

/// `chars[from..to]` as a string.
pub fn string_of(chars: &Vec<char>, from: usize, to: usize) -> (r: String)
    requires
        from <= to <= chars@.len(),
    ensures
        r@ == chars@.subrange(from as int, to as int),
{
    let mut s: String = String::new();
    let mut i: usize = from;
    assert(chars@.subrange(from as int, from as int) =~= Seq::empty());
    while i < to
        invariant
            from <= i <= to <= chars@.len(),
            s@ == chars@.subrange(from as int, i as int),
        decreases to - i,
    {
        push_char(&mut s, chars[i]);
        i = i + 1;
        assert(chars@.subrange(from as int, i as int) =~= chars@.subrange(
            from as int,
            i - 1,
        ).push(chars@[i - 1]));
    }
    s
}

/// `s` without the white space at both its ends.
pub fn trim(s: &str) -> (r: String)
    ensures
        r@ == trimmed(s@),
{
    let chars: Vec<char> = chars_of(s);
    let mut from: usize = 0;
    assert(s@.subrange(0, s@.len() as int) =~= s@);
    while from < chars.len() && white(chars[from])
        invariant
            chars@ == s@,
            from <= chars@.len(),
            trim_start(s@) == trim_start(s@.subrange(from as int, s@.len() as int)),
        decreases chars@.len() - from,
    {
        assert(s@.subrange(from as int, s@.len() as int).drop_first() =~= s@.subrange(
            from + 1,
            s@.len() as int,
        ));
        from = from + 1;
    }
    assert(trim_start(s@) == s@.subrange(from as int, s@.len() as int));
    let mut to: usize = chars.len();
    while to > from && white(chars[to - 1])
        invariant
            chars@ == s@,
            from <= to <= chars@.len(),
            trimmed(s@) == trim_end(s@.subrange(from as int, to as int)),
        decreases to,
    {
        assert(s@.subrange(from as int, to as int).drop_last() =~= s@.subrange(
            from as int,
            to - 1,
        ));
        to = to - 1;
    }
    string_of(&chars, from, to)
}

/// Whether the two strings hold the same characters.
pub fn same(a: &str, b: &str) -> (r: bool)
    ensures
        r == (a@ == b@),
{
    let x: &[u8] = a.as_bytes();
    let y: &[u8] = b.as_bytes();
    proof {
        encode_utf8_decode_utf8(a@);
        encode_utf8_decode_utf8(b@);
    }
    if x.len() != y.len() {
        return false;
    }
    let mut i: usize = 0;
    while i < x.len()
        invariant
            x@ == encode_utf8(a@),
            y@ == encode_utf8(b@),
            x@.len() == y@.len(),
            i <= x@.len(),
            forall|j: int| 0 <= j < i ==> x@[j] == y@[j],
        decreases x@.len() - i,
    {
        if x[i] != y[i] {
            assert(x@ != y@);
            return false;
        }
        i = i + 1;
    }
    assert(x@ =~= y@);
    true
}

/// `c` with an ASCII capital letter made small.
pub open spec fn lower(c: char) -> char {
    if 65 <= c as u32 <= 90 {
        ((c as u32 + 32) as u8) as char
    } else {
        c
    }
}

/// `s` with every ASCII capital letter made small.
pub open spec fn lowered(s: Seq<char>) -> Seq<char> {
    s.map_values(|c: char| lower(c))
}

/// `s` with every ASCII capital letter made small.
pub fn to_lower(s: &str) -> (r: String)
    ensures
        r@ == lowered(s@),
{
    let chars: Vec<char> = chars_of(s);
    let mut out: String = String::new();
    let mut i: usize = 0;
    while i < chars.len()
        invariant
            chars@ == s@,
            i <= chars@.len(),
            out@ == lowered(s@.take(i as int)),
        decreases chars@.len() - i,
    {
        let c: char = chars[i];
        let u: u32 = c as u32;
        let d: char = if 65 <= u && u <= 90 {
            (u + 32) as u8 as char
        } else {
            c
        };
        push_char(&mut out, d);
        i = i + 1;
        assert(lowered(s@.take(i as int)) =~= lowered(s@.take(i - 1)).push(lower(s@[i - 1])));
    }
    assert(s@.take(i as int) =~= s@);
    out
}

/// Whether `s` is a non-empty run of ASCII digits.
pub open spec fn all_digits(s: Seq<char>) -> bool {
    s.len() > 0 && forall|i: int| 0 <= i < s.len() ==> 48 <= #[trigger] s[i] as u32 <= 57
}

/// The number that a run of decimal digits stands for.
pub open spec fn digits_value(s: Seq<char>) -> int
    decreases s.len(),
{
    if s.len() == 0 {
        0
    } else {
        10 * digits_value(s.drop_last()) + (s.last() as u32 - 48)
    }
}

/// The digits of a number as it may be written: after an optional plus sign.
pub open spec fn digits_part(s: Seq<char>) -> Seq<char> {
    if s.len() > 0 && s[0] == '+' {
        s.drop_first()
    } else {
        s
    }
}

/// The number up to `max` that `s` writes: digits, after an optional plus sign, and nothing else.
pub open spec fn number(s: Seq<char>, max: int) -> Option<int> {
    let d = digits_part(s);
    if all_digits(d) && digits_value(d) <= max {
        Some(digits_value(d))
    } else {
        None
    }
}

proof fn lemma_digits_value_grows(s: Seq<char>, n: int)
    requires
        0 <= n <= s.len(),
        forall|i: int| 0 <= i < s.len() ==> 48 <= #[trigger] s[i] as u32 <= 57,
    ensures
        0 <= digits_value(s.take(n)) <= digits_value(s),
    decreases s.len(),
{
    if n == s.len() {
        assert(s.take(n) =~= s);
        if s.len() > 0 {
            lemma_digits_value_grows(s.drop_last(), 0);
        }
    } else {
        lemma_digits_value_grows(s.drop_last(), n);
        assert(s.drop_last().take(n) =~= s.take(n));
    }
}

/// Reads a number of at most `max`.
pub fn parse_number(s: &str, max: u64) -> (r: Option<u64>)
    ensures
        match r {
            Some(n) => number(s@, max as int) == Some(n as int),
            None => number(s@, max as int) is None,
        },
{
    let chars: Vec<char> = chars_of(s);
    let from: usize = if chars.len() > 0 && chars[0] == '+' {
        1
    } else {
        0
    };
    let ghost d = digits_part(s@);
    assert(d =~= s@.subrange(from as int, s@.len() as int));
    if from == chars.len() {
        return None;
    }
    let mut v: u64 = 0;
    let mut i: usize = from;
    assert(d.take(0) =~= Seq::empty());
    while i < chars.len()
        invariant
            chars@ == s@,
            d == digits_part(s@),
            d == s@.subrange(from as int, s@.len() as int),
            from <= i <= chars@.len(),
            v <= max,
            v == digits_value(d.take(i - from)),
            forall|j: int| 0 <= j < i - from ==> 48 <= #[trigger] d[j] as u32 <= 57,
        decreases chars@.len() - i,
    {
        let u: u32 = chars[i] as u32;
        assert(d[i - from] == chars@[i as int]);
        if u < 48 || u > 57 {
            return None;
        }
        let digit: u64 = (u - 48) as u64;
        assert(d.take(i + 1 - from).drop_last() =~= d.take(i - from));
        assert(digits_value(d.take(i + 1 - from)) == 10 * v + digit);
        if v > max / 10 || digit > max - v * 10 {
            proof {
                if all_digits(d) {
                    lemma_digits_value_grows(d, i + 1 - from);
                }
            }
            return None;
        }
        v = v * 10 + digit;
        i = i + 1;
    }
    assert(d.take(i - from) =~= d);
    Some(v)
}

/// The decimal digit of `d`.
pub open spec fn digit_char(d: int) -> char {
    ((48 + d) as u8) as char
}

/// `n` written in decimal.
pub open spec fn decimal(n: int) -> Seq<char>
    decreases n,
{
    if n < 10 {
        seq![digit_char(n)]
    } else {
        decimal(n / 10).push(digit_char(n % 10))
    }
}

/// `n` written in decimal.
pub fn to_decimal(n: u64) -> (r: String)
    ensures
        r@ == decimal(n as int),
    decreases n,
{
    let mut s: String = if n < 10 {
        String::new()
    } else {
        to_decimal(n / 10)
    };
    push_char(&mut s, (48 + (n % 10)) as u8 as char);
    assert(s@ =~= decimal(n as int));
    s
}

/// Reading back a written number gives the number.
pub proof fn decimal_reads_back(n: int, max: int)
    requires
        0 <= n <= max,
    ensures
        number(decimal(n), max) == Some(n),
{
    lemma_decimal(n);
    assert(decimal(n)[0] != '+') by {
        assert(48 <= decimal(n)[0] as u32);
        assert('+' as u32 == 43);
    }
}

pub(crate) proof fn lemma_decimal(n: int)
    requires
        0 <= n,
    ensures
        all_digits(decimal(n)),
        digits_value(decimal(n)) == n,
    decreases n,
{
    if n < 10 {
        let s = decimal(n);
        assert(s.drop_last() =~= Seq::empty());
        assert(digits_value(s.drop_last()) == 0);
    } else {
        lemma_decimal(n / 10);
        assert(decimal(n).drop_last() =~= decimal(n / 10));
    }
}

/// Whether `pat` stands at the start of `s`.
pub open spec fn begins(s: Seq<char>, pat: Seq<char>) -> bool {
    s.len() >= pat.len() && s.subrange(0, pat.len() as int) == pat
}

/// `s` with each `pat`, found from the left without overlap, replaced by `with`.
pub open spec fn replaced(s: Seq<char>, pat: Seq<char>, with: Seq<char>) -> Seq<char>
    decreases s.len(),
{
    if s.len() == 0 || pat.len() == 0 {
        s
    } else if begins(s, pat) {
        with + replaced(s.subrange(pat.len() as int, s.len() as int), pat, with)
    } else {
        seq![s[0]] + replaced(s.drop_first(), pat, with)
    }
}

/// `s` with each `pat`, found from the left without overlap, replaced by `with`.
pub fn replace(s: &str, pat: &str, with: &str) -> (r: String)
    requires
        pat@.len() > 0,
    ensures
        r@ == replaced(s@, pat@, with@),
{
    let chars: Vec<char> = chars_of(s);
    let p: Vec<char> = chars_of(pat);
    let mut out: String = String::new();
    let mut i: usize = 0;
    assert(s@.subrange(0, s@.len() as int) =~= s@);
    while i < chars.len()
        invariant
            chars@ == s@,
            p@ == pat@,
            pat@.len() > 0,
            i <= chars@.len(),
            out@ + replaced(s@.subrange(i as int, s@.len() as int), pat@, with@) == replaced(
                s@,
                pat@,
                with@,
            ),
        decreases chars@.len() - i,
    {
        let ghost rest = s@.subrange(i as int, s@.len() as int);
        let mut j: usize = 0;
        while j < p.len() && j < chars.len() - i && chars[i + j] == p[j]
            invariant
                chars@ == s@,
                p@ == pat@,
                i <= chars@.len(),
                j <= p@.len(),
                j <= chars@.len() - i,
                forall|k: int| 0 <= k < j ==> chars@[i + k] == #[trigger] p@[k],
            decreases p@.len() - j,
        {
            j = j + 1;
        }
        if j == p.len() {
            assert(rest.subrange(0, pat@.len() as int) =~= pat@);
            assert(rest.subrange(pat@.len() as int, rest.len() as int) =~= s@.subrange(
                i + j,
                s@.len() as int,
            ));
            out.append(with);
            i = i + j;
            proof {
                let tail = replaced(s@.subrange(i as int, s@.len() as int), pat@, with@);
                assert(replaced(rest, pat@, with@) == with@ + tail);
                assert(out@ + tail =~= replaced(s@, pat@, with@));
            }
        } else {
            proof {
                if begins(rest, pat@) {
                    assert(rest[j as int] == pat@[j as int]) by {
                        assert(rest.subrange(0, pat@.len() as int)[j as int] == pat@[j as int]);
                    }
                    assert(false);
                }
                assert(rest.drop_first() =~= s@.subrange(i + 1, s@.len() as int));
            }
            push_char(&mut out, chars[i]);
            i = i + 1;
            proof {
                let tail = replaced(s@.subrange(i as int, s@.len() as int), pat@, with@);
                assert(replaced(rest, pat@, with@) == seq![rest[0]] + tail);
                assert(out@ + tail =~= replaced(s@, pat@, with@));
            }
        }
    }
    assert(s@.subrange(i as int, s@.len() as int) =~= Seq::empty());
    assert(out@ =~= replaced(s@, pat@, with@));
    out
}

/// Whether `a` comes before `b` in the order of strings: character by character, a prefix first.
pub open spec fn precedes(a: Seq<char>, b: Seq<char>) -> bool
    decreases a.len(),
{
    if b.len() == 0 {
        false
    } else if a.len() == 0 {
        true
    } else if a[0] == b[0] {
        precedes(a.drop_first(), b.drop_first())
    } else {
        (a[0] as u32) < (b[0] as u32)
    }
}

/// Whether `a` comes before `b` in the order of strings.
pub fn before(a: &str, b: &str) -> (r: bool)
    ensures
        r == precedes(a@, b@),
{
    let x: Vec<char> = chars_of(a);
    let y: Vec<char> = chars_of(b);
    let mut i: usize = 0;
    assert(a@.subrange(0, a@.len() as int) =~= a@);
    assert(b@.subrange(0, b@.len() as int) =~= b@);
    while i < x.len() && i < y.len() && x[i] == y[i]
        invariant
            x@ == a@,
            y@ == b@,
            i <= x@.len(),
            i <= y@.len(),
            precedes(a@, b@) == precedes(
                a@.subrange(i as int, a@.len() as int),
                b@.subrange(i as int, b@.len() as int),
            ),
        decreases x@.len() - i,
    {
        assert(a@.subrange(i as int, a@.len() as int).drop_first() =~= a@.subrange(
            i + 1,
            a@.len() as int,
        ));
        assert(b@.subrange(i as int, b@.len() as int).drop_first() =~= b@.subrange(
            i + 1,
            b@.len() as int,
        ));
        i = i + 1;
    }
    if i == y.len() {
        false
    } else if i == x.len() {
        true
    } else {
        (x[i] as u32) < (y[i] as u32)
    }
}

/// The order of strings is irreflexive, transitive and total.
pub proof fn string_order(a: Seq<char>, b: Seq<char>, c: Seq<char>)
    ensures
        !precedes(a, a),
        precedes(a, b) && precedes(b, c) ==> precedes(a, c),
        precedes(a, b) || precedes(b, a) || a == b,
        !(precedes(a, b) && precedes(b, a)),
{
    lemma_order_total(a, a);
    lemma_order_total(a, b);
    lemma_order_transitive(a, b, c);
}

proof fn lemma_order_total(a: Seq<char>, b: Seq<char>)
    ensures
        precedes(a, b) || precedes(b, a) || a == b,
        !(precedes(a, b) && precedes(b, a)),
    decreases a.len(),
{
    if a.len() > 0 && b.len() > 0 {
        lemma_order_total(a.drop_first(), b.drop_first());
        let (x, y) = (a[0], b[0]);
        assert(x as u32 == y as u32 ==> x == y) by {
            vstd::utf8::char_u32_cast(x, x as u32);
            vstd::utf8::char_u32_cast(y, y as u32);
        }
        if a[0] == b[0] && a.drop_first() == b.drop_first() {
            assert(a =~= b) by {
                assert forall|i: int| 0 <= i < a.len() implies a[i] == b[i] by {
                    if i > 0 {
                        assert(a.drop_first()[i - 1] == b.drop_first()[i - 1]);
                    }
                }
            }
        }
    } else if a.len() == 0 && b.len() == 0 {
        assert(a =~= b);
    }
}

proof fn lemma_order_transitive(a: Seq<char>, b: Seq<char>, c: Seq<char>)
    ensures
        precedes(a, b) && precedes(b, c) ==> precedes(a, c),
    decreases a.len(),
{
    if a.len() > 0 && b.len() > 0 && c.len() > 0 {
        lemma_order_transitive(a.drop_first(), b.drop_first(), c.drop_first());
    }
}

/// `s` right-aligned in `width` characters; a longer text is left as it is.
pub open spec fn padded(s: Seq<char>, width: nat) -> Seq<char> {
    if s.len() >= width {
        s
    } else {
        Seq::new((width - s.len()) as nat, |i: int| ' ') + s
    }
}

/// Appends `s`, right-aligned in `width` characters.
pub fn push_padded(out: &mut String, s: &str, width: usize)
    ensures
        final(out)@ == old(out)@ + padded(s@, width as nat),
{
    let n: usize = s.unicode_len();
    let mut i: usize = n;
    while i < width
        invariant
            n <= i,
            n == s@.len(),
            out@ == old(out)@ + Seq::new((i - n) as nat, |j: int| ' '),
            i <= width || i == n,
        decreases width - i,
    {
        push_char(out, ' ');
        i = i + 1;
        assert(out@ =~= old(out)@ + Seq::new((i - n) as nat, |j: int| ' '));
    }
    out.append(s);
    assert(out@ =~= old(out)@ + padded(s@, width as nat));
}

/// Strings are ordered by their first difference: the one with the lesser character there comes
/// first, and so does one that is a proper beginning of the other.
pub proof fn first_difference_decides(a: Seq<char>, b: Seq<char>, k: int)
    requires
        0 <= k <= a.len(),
        k <= b.len(),
        forall|i: int| 0 <= i < k ==> #[trigger] a[i] == b[i],
    ensures
        k == a.len() && k < b.len() ==> precedes(a, b),
        k < a.len() && k < b.len() && (a[k] as u32) < (b[k] as u32) ==> precedes(a, b),
    decreases k,
{
    if k > 0 {
        assert(a[0] == b[0]);
        let c = a.drop_first();
        let d = b.drop_first();
        assert forall|i: int| 0 <= i < k - 1 implies #[trigger] c[i] == d[i] by {
            assert(a[i + 1] == b[i + 1]);
        }
        first_difference_decides(c, d, k - 1);
    }
}

proof fn lemma_trim_start(s: Seq<char>) -> (i: int)
    ensures
        0 <= i <= s.len(),
        trim_start(s) == s.subrange(i, s.len() as int),
        forall|k: int| 0 <= k < i ==> is_white(#[trigger] s[k]),
        i < s.len() ==> !is_white(s[i]),
    decreases s.len(),
{
    if s.len() > 0 && is_white(s[0]) {
        let t = s.drop_first();
        let j = lemma_trim_start(t);
        assert(t.subrange(j, t.len() as int) =~= s.subrange(j + 1, s.len() as int));
        assert forall|k: int| 0 <= k < j + 1 implies is_white(#[trigger] s[k]) by {
            if k > 0 {
                assert(is_white(t[k - 1]));
            }
        }
        j + 1
    } else {
        assert(s.subrange(0, s.len() as int) =~= s);
        0
    }
}

proof fn lemma_trim_end(s: Seq<char>) -> (j: int)
    ensures
        0 <= j <= s.len(),
        trim_end(s) == s.subrange(0, j),
        forall|k: int| j <= k < s.len() ==> is_white(#[trigger] s[k]),
        j > 0 ==> !is_white(s[j - 1]),
    decreases s.len(),
{
    if s.len() > 0 && is_white(s.last()) {
        let t = s.drop_last();
        let j = lemma_trim_end(t);
        assert(t.subrange(0, j) =~= s.subrange(0, j));
        assert forall|k: int| j <= k < s.len() implies is_white(#[trigger] s[k]) by {
            if k < t.len() {
                assert(is_white(t[k]));
            }
        }
        j
    } else {
        assert(s.subrange(0, s.len() as int) =~= s);
        s.len() as int
    }
}

/// Whether `t` is `s[i..j]`, all of `s` outside of it is white space, and its two ends are not.
pub open spec fn is_core(s: Seq<char>, t: Seq<char>, i: int, j: int) -> bool {
    &&& 0 <= i <= j <= s.len()
    &&& t == s.subrange(i, j)
    &&& forall|k: int| 0 <= k < i || j <= k < s.len() ==> is_white(#[trigger] s[k])
    &&& i < j ==> !is_white(s[i]) && !is_white(s[j - 1])
}

/// Trimming takes white space off both ends, as much as there is, and nothing else.
pub proof fn trimming_leaves_the_core(s: Seq<char>)
    ensures
        exists|i: int, j: int| #[trigger] is_core(s, trimmed(s), i, j),
{
    let i = lemma_trim_start(s);
    let t = trim_start(s);
    let j = lemma_trim_end(t);
    assert(trimmed(s) =~= s.subrange(i, i + j));
    assert forall|k: int| 0 <= k < i || i + j <= k < s.len() implies is_white(
        #[trigger] s[k],
    ) by {
        if k >= i + j {
            assert(is_white(t[k - i]));
        }
    }
    if j > 0 {
        assert(t[0] == s[i]);
        assert(t[j - 1] == s[i + j - 1]);
    }
    assert(is_core(s, trimmed(s), i, i + j));
}

/// What prints in ASCII is not white space; the space and the line and tab characters are.
pub proof fn ascii_white_space(c: char)
    ensures
        33 <= c as u32 <= 126 ==> !is_white(c),
        c == ' ' || c == '\t' || c == '\n' || c == '\r' ==> is_white(c),
{
}

/// Making letters small keeps the length and every other character; nothing of it is a capital.
pub proof fn lowering_changes_capitals_alone(s: Seq<char>, i: int)
    requires
        0 <= i < s.len(),
    ensures
        lowered(s).len() == s.len(),
        65 <= s[i] as u32 <= 90 ==> lowered(s)[i] as u32 == s[i] as u32 + 32,
        !(65 <= s[i] as u32 <= 90) ==> lowered(s)[i] == s[i],
        lowered(lowered(s)) == lowered(s),
{
    assert(lowered(lowered(s)) =~= lowered(s));
}

/// Only digits, after at most one plus sign, write a number; the plus sign changes nothing, and a
/// number over the maximum is none.
pub proof fn number_is_its_digits(s: Seq<char>, max: int, i: int)
    requires
        0 <= i < s.len(),
    ensures
        i > 0 && !(48 <= s[i] as u32 <= 57) ==> number(s, max) is None,
        s[0] != '+' && !(48 <= s[0] as u32 <= 57) ==> number(s, max) is None,
        s[0] != '+' ==> number(seq!['+'] + s, max) == number(s, max),
        number(Seq::<char>::empty(), max) is None,
        number(s, max) is Some ==> number(s, max)->Some_0 <= max,
{
    let d = digits_part(s);
    if s[0] == '+' {
        if i > 0 {
            assert(d[i - 1] == s[i]);
        }
    } else {
        assert(d[i] == s[i]);
        assert(d[0] == s[0]);
        let t = seq!['+'] + s;
        assert(digits_part(t) =~= s);
    }
}

/// Where `pat` does not occur in `s`, nothing is replaced.
pub proof fn nothing_to_replace(s: Seq<char>, pat: Seq<char>, with: Seq<char>)
    requires
        forall|i: int|
            0 <= i <= s.len() ==> !begins(#[trigger] s.subrange(i, s.len() as int), pat),
    ensures
        replaced(s, pat, with) == s,
    decreases s.len(),
{
    if s.len() > 0 && pat.len() > 0 {
        assert(s.subrange(0, s.len() as int) =~= s);
        let t = s.drop_first();
        assert forall|i: int| 0 <= i <= t.len() implies !begins(
            #[trigger] t.subrange(i, t.len() as int),
            pat,
        ) by {
            assert(t.subrange(i, t.len() as int) =~= s.subrange(i + 1, s.len() as int));
        }
        nothing_to_replace(t, pat, with);
        assert(seq![s[0]] + t =~= s);
    }
}

/// The first `pat` in `s` gives way to `with`: what is before it stays, and what is after it is
/// looked at next.
pub proof fn first_match_is_replaced(s: Seq<char>, pat: Seq<char>, with: Seq<char>, k: int)
    requires
        pat.len() > 0,
        0 <= k,
        k + pat.len() <= s.len(),
        begins(s.subrange(k, s.len() as int), pat),
        forall|i: int|
            0 <= i < k ==> !begins(#[trigger] s.subrange(i, s.len() as int), pat),
    ensures
        replaced(s, pat, with) == s.subrange(0, k) + with + replaced(
            s.subrange(k + pat.len(), s.len() as int),
            pat,
            with,
        ),
    decreases k,
{
    assert(s.subrange(0, s.len() as int) =~= s);
    if k == 0 {
        assert(s.subrange(0, 0) + with =~= with);
    } else {
        let t = s.drop_first();
        let n = t.len() as int;
        assert(t.subrange(k - 1, n) =~= s.subrange(k, s.len() as int));
        assert forall|i: int| 0 <= i < k - 1 implies !begins(#[trigger] t.subrange(i, n), pat) by {
            assert(t.subrange(i, n) =~= s.subrange(i + 1, s.len() as int));
        }
        assert(!begins(s.subrange(0, s.len() as int), pat));
        first_match_is_replaced(t, pat, with, k - 1);
        let rest = s.subrange(k + pat.len(), s.len() as int);
        assert(t.subrange(k - 1 + pat.len(), n) =~= rest);
        assert(seq![s[0]] + (t.subrange(0, k - 1) + with + replaced(rest, pat, with))
            =~= s.subrange(0, k) + with + replaced(rest, pat, with));
    }
}

/// Padding puts spaces in front, as many as are missing from the width.
pub proof fn padding_fills_from_the_left(s: Seq<char>, width: nat, i: int)
    requires
        0 <= i < padded(s, width).len(),
    ensures
        padded(s, width).len() == (if s.len() >= width {
            s.len()
        } else {
            width
        }),
        ({
            let gap = padded(s, width).len() - s.len();
            padded(s, width)[i] == (if i < gap {
                ' '
            } else {
                s[i - gap]
            })
        }),
{
}

/// Whether `t` occurs in `s`.
pub open spec fn occurs(s: Seq<char>, t: Seq<char>) -> bool {
    exists|k: int| 0 <= k <= s.len() - t.len() && #[trigger] s.subrange(k, k + t.len()) == t
}

pub(crate) proof fn lemma_occurs(s: Seq<char>, a: Seq<char>, t: Seq<char>, b: Seq<char>)
    requires
        s == a + t + b,
    ensures
        occurs(s, t),
{
    let k = a.len() as int;
    assert(s.subrange(k, k + t.len()) =~= t);
}

pub(crate) proof fn lemma_still_occurs(a: Seq<char>, s: Seq<char>, b: Seq<char>, t: Seq<char>)
    requires
        occurs(s, t),
    ensures
        occurs(a + s, t),
        occurs(s + b, t),
{
    let k = choose|k: int| 0 <= k <= s.len() - t.len() && #[trigger] s.subrange(k, k + t.len()) == t;
    let l = a.len() + k;
    assert((a + s).subrange(l, l + t.len()) =~= s.subrange(k, k + t.len()));
    assert((s + b).subrange(k, k + t.len()) =~= s.subrange(k, k + t.len()));
}

/// A number that a text writes is not negative and within its maximum.
pub(crate) proof fn lemma_number_in_range(s: Seq<char>, max: int)
    ensures
        number(s, max) is Some ==> 0 <= number(s, max)->Some_0 <= max,
{
    let d = digits_part(s);
    if all_digits(d) {
        lemma_digits_value_grows(d, 0);
    }
}

} // verus!
