//! Text primitives: trimming, decimal numbers, joining, quoting and letter case, each
//! stated over the characters of the text.

use vstd::prelude::*;
use vstd::std_specs::iter::IteratorSpec;
use vstd::string::*;

verus! {

/// The characters of each text of a list.
pub open spec fn texts(list: Seq<String>) -> Seq<Seq<char>> {
    Seq::new(list.len(), |i: int| list[i]@)
}

/// The characters of an optional text.
pub open spec fn opt_text(t: Option<String>) -> Option<Seq<char>> {
    match t {
        Some(s) => Some(s@),
        None => None,
    }
}

/// The characters of a borrowed text that may be absent.
pub open spec fn str_view(t: Option<&str>) -> Option<Seq<char>> {
    match t {
        Some(s) => Some(s@),
        None => None,
    }
}

/// `String::push` appends one character.
pub assume_specification[ String::push ](s: &mut String, ch: char)
    ensures
        final(s)@ == old(s)@.push(ch),
;

/// The characters of `s`, one by one.
pub fn chars_of(s: &str) -> (r: Vec<char>)
    ensures
        r@ == s@,
{
    let mut out: Vec<char> = Vec::new();
    for c in it: s.chars()
        invariant
            out@ == s@.take(it.index() as int),
            it.seq() == s@,
    {
        out.push(c);
    }
    out
}

/// Whether two texts are the same.
pub fn same(a: &str, b: &str) -> (r: bool)
    ensures
        r == (a@ == b@),
{
    let mut x = a.chars();
    let mut y = b.chars();
    let ghost mut n: int = 0;
    loop
        invariant
            0 <= n <= a@.len(),
            n <= b@.len(),
            a@.take(n) == b@.take(n),
            x.remaining() == a@.skip(n),
            y.remaining() == b@.skip(n),
        decreases a@.len() - n,
    {
        let p = x.next();
        let q = y.next();
        match (p, q) {
            (None, None) => {
                assert(a@.take(n) =~= a@);
                assert(b@.take(n) =~= b@);
                return true;
            },
            (Some(c), Some(d)) => {
                if c != d {
                    return false;
                }
                proof { n = n + 1; }
            },
            _ => {
                return false;
            },
        }
    }
}

/// Whether a character is whitespace: the characters with Unicode's
/// `White_Space` property.
pub open spec fn is_space(c: char) -> bool {
    let u = c as u32;
    ||| 0x9 <= u <= 0xd
    ||| u == 0x20
    ||| u == 0x85
    ||| u == 0xa0
    ||| u == 0x1680
    ||| 0x2000 <= u <= 0x200a
    ||| u == 0x2028
    ||| u == 0x2029
    ||| u == 0x202f
    ||| u == 0x205f
    ||| u == 0x3000
}

/// Whether a character is whitespace.
pub fn space(c: char) -> (r: bool)
    ensures
        r == is_space(c),
{
    let u: u32 = c as u32;
    (0x9 <= u && u <= 0xd) || u == 0x20 || u == 0x85 || u == 0xa0 || u == 0x1680 || (0x2000 <= u
        && u <= 0x200a) || u == 0x2028 || u == 0x2029 || u == 0x202f || u == 0x205f || u == 0x3000
}

/// A text without the whitespace at its two ends.
pub open spec fn trimmed(s: Seq<char>) -> Seq<char>
    decreases s.len(),
{
    if s.len() == 0 {
        s
    } else if is_space(s[0]) {
        trimmed(s.drop_first())
    } else if is_space(s.last()) {
        trimmed(s.drop_last())
    } else {
        s
    }
}

/// `s` without the whitespace at its two ends.
pub fn trim(s: &str) -> (r: &str)
    ensures
        r@ == trimmed(s@),
{
    let cs: Vec<char> = chars_of(s);
    let mut from: usize = 0;
    let mut to: usize = cs.len();
    assert(s@.subrange(0, to as int) =~= s@);
    while from < to && space(cs[from])
        invariant
            cs@ == s@,
            from <= to == s@.len(),
            trimmed(s@) == trimmed(s@.subrange(from as int, to as int)),
        decreases to - from,
    {
        proof {
            assert(s@.subrange(from as int, to as int).drop_first() =~= s@.subrange(
                from + 1,
                to as int,
            ));
        }
        from = from + 1;
    }
    while from < to && space(cs[to - 1])
        invariant
            cs@ == s@,
            from <= to <= s@.len(),
            from < to ==> !is_space(s@[from as int]),
            trimmed(s@) == trimmed(s@.subrange(from as int, to as int)),
        decreases to - from,
    {
        proof {
            assert(s@.subrange(from as int, to as int).drop_last() =~= s@.subrange(
                from as int,
                to - 1,
            ));
        }
        to = to - 1;
    }
    s.substring_char(from, to)
}

/// The decimal digit of `d`.
pub open spec fn digit_char(d: int) -> char {
    (0x30 + d) as char
}

/// The decimal digits of `n`, most significant first, with no leading zero.
pub open spec fn decimal(n: nat) -> Seq<char>
    decreases n,
{
    if n < 10 {
        seq![digit_char(n as int)]
    } else {
        decimal(n / 10).push(digit_char((n % 10) as int))
    }
}

/// `n` in decimal.
pub fn decimal_text(n: u64) -> (r: String)
    ensures
        r@ == decimal(n as nat),
    decreases n,
{
    let d: u8 = (n % 10) as u8;
    let c: char = (0x30u8 + d) as char;
    if n < 10 {
        let mut s = String::new();
        s.push(c);
        s
    } else {
        let mut s = decimal_text(n / 10);
        s.push(c);
        s
    }
}

/// The decimal digits of `n`, behind a minus sign where it is negative.
pub open spec fn signed_decimal(n: int) -> Seq<char> {
    if n < 0 {
        seq!['-'] + decimal((-n) as nat)
    } else {
        decimal(n as nat)
    }
}

/// `n` in decimal, behind a minus sign where it is negative.
pub fn signed_text(n: i64) -> (r: String)
    ensures
        r@ == signed_decimal(n as int),
{
    if n < 0 {
        let magnitude: u64 = (-(n as i128)) as u64;
        let digits = decimal_text(magnitude);
        let mut s = String::new();
        s.push('-');
        s.append(digits.as_str());
        assert(s@ =~= seq!['-'] + decimal((-n) as nat));
        s
    } else {
        decimal_text(n as u64)
    }
}

/// Whether a character is a decimal digit.
pub open spec fn is_digit(c: char) -> bool {
    0x30 <= c as u32 <= 0x39
}

/// The number that a sequence of decimal digits writes.
pub open spec fn digits_value(s: Seq<char>) -> nat
    decreases s.len(),
{
    if s.len() == 0 {
        0
    } else {
        10 * digits_value(s.drop_last()) + ((s.last() as u32 - 0x30) as nat)
    }
}

/// A text behind its optional plus sign.
pub open spec fn past_plus(s: Seq<char>) -> Seq<char> {
    if s.len() > 0 && s[0] == '+' {
        s.drop_first()
    } else {
        s
    }
}

/// The unsigned number that a text writes: an optional plus sign, then one or
/// more digits and nothing else.
pub open spec fn unsigned_value(s: Seq<char>) -> Option<nat> {
    let body = past_plus(s);
    if body.len() > 0 && (forall|i: int| 0 <= i < body.len() ==> is_digit(#[trigger] body[i])) {
        Some(digits_value(body))
    } else {
        None
    }
}

/// The digits at the front of a number write no more than the whole of it.
pub(crate) proof fn lemma_digits_value_grows(s: Seq<char>, n: int)
    requires
        0 <= n <= s.len(),
        forall|i: int| 0 <= i < s.len() ==> is_digit(#[trigger] s[i]),
    ensures
        digits_value(s.take(n)) <= digits_value(s),
    decreases s.len() - n,
{
    if n == s.len() {
        assert(s.take(n) =~= s);
    } else {
        assert(s.take(n + 1).drop_last() =~= s.take(n));
        assert(is_digit(s[n]));
        lemma_digits_value_grows(s, n + 1);
    }
}

/// The unsigned number that `s` writes, where it fits 64 bits.
pub fn parse_unsigned(s: &str) -> (r: Option<u64>)
    ensures
        r == match unsigned_value(s@) {
            Some(n) => if n <= u64::MAX {
                Some(n as u64)
            } else {
                None
            },
            None => None,
        },
{
    let cs: Vec<char> = chars_of(s);
    let from: usize = if cs.len() > 0 && cs[0] == '+' {
        1
    } else {
        0
    };
    let ghost body = past_plus(s@);
    assert(body =~= cs@.skip(from as int));
    if from == cs.len() {
        return None;
    }
    let mut i: usize = from;
    while i < cs.len()
        invariant
            from <= i <= cs.len(),
            body == cs@.skip(from as int),
            body == past_plus(s@),
            forall|j: int| 0 <= j < i - from ==> is_digit(#[trigger] body[j]),
        ensures
            forall|j: int| 0 <= j < body.len() ==> is_digit(#[trigger] body[j]),
        decreases cs.len() - i,
    {
        let u: u32 = cs[i] as u32;
        if u < 0x30 || u > 0x39 {
            assert(!is_digit(body[i - from]));
            return None;
        }
        assert(body[i - from] == cs@[i as int]);
        i = i + 1;
    }
    let mut value: u64 = 0;
    let mut k: usize = from;
    while k < cs.len()
        invariant
            from <= k <= cs.len(),
            body == cs@.skip(from as int),
            body == past_plus(s@),
            forall|j: int| 0 <= j < body.len() ==> is_digit(#[trigger] body[j]),
            value == digits_value(body.take(k - from)),
            body.len() > 0,
            unsigned_value(s@) == Some(digits_value(body)),
        decreases cs.len() - k,
    {
        proof {
            assert(is_digit(body[k - from]));
            assert(body[k - from] == cs@[k as int]);
        }
        let d: u64 = (cs[k] as u32 - 0x30) as u64;
        proof {
            assert(body.take(k - from + 1).drop_last() =~= body.take(k - from));
            lemma_digits_value_grows(body, k - from + 1);
        }
        if value > (u64::MAX - d) / 10 {
            return None;
        }
        value = value * 10 + d;
        k = k + 1;
    }
    assert(body.take(body.len() as int) =~= body);
    Some(value)
}

/// The texts of a list, with `sep` between each and the next.
pub open spec fn joined(list: Seq<Seq<char>>, sep: Seq<char>) -> Seq<char>
    decreases list.len(),
{
    if list.len() == 0 {
        Seq::empty()
    } else if list.len() == 1 {
        list[0]
    } else {
        joined(list.drop_last(), sep) + sep + list.last()
    }
}

/// The texts of `list`, with `sep` between each and the next.
pub fn join(list: &Vec<String>, sep: &str) -> (r: String)
    ensures
        r@ == joined(texts(list@), sep@),
{
    let mut out = String::new();
    let mut i: usize = 0;
    assert(texts(list@).take(0) =~= Seq::empty());
    while i < list.len()
        invariant
            i <= list.len(),
            out@ == joined(texts(list@).take(i as int), sep@),
        decreases list.len() - i,
    {
        let ghost now = texts(list@).take(i + 1);
        if i > 0 {
            out.append(sep);
        }
        out.append(list[i].as_str());
        proof {
            assert(now.drop_last() =~= texts(list@).take(i as int));
            if i == 0 {
                assert(out@ =~= now[0]);
            }
        }
        i = i + 1;
    }
    assert(texts(list@).take(i as int) =~= texts(list@));
    out
}

/// The body of the SQL string literal for a text: every quote doubled.
pub open spec fn quoted(s: Seq<char>) -> Seq<char>
    decreases s.len(),
{
    if s.len() == 0 {
        s
    } else if s[0] == '\'' {
        seq!['\'', '\''] + quoted(s.drop_first())
    } else {
        seq![s[0]] + quoted(s.drop_first())
    }
}

/// What a reader of SQL takes from behind the opening quote of a string
/// literal: the text up to the closing quote, a doubled quote standing for one,
/// and what follows the closing quote. `None` where the literal never closes.
pub open spec fn read_literal(t: Seq<char>) -> Option<(Seq<char>, Seq<char>)>
    decreases t.len(),
{
    if t.len() == 0 {
        None
    } else if t[0] != '\'' {
        match read_literal(t.drop_first()) {
            Some((value, rest)) => Some((seq![t[0]] + value, rest)),
            None => None,
        }
    } else if t.len() > 1 && t[1] == '\'' {
        match read_literal(t.skip(2)) {
            Some((value, rest)) => Some((seq!['\''] + value, rest)),
            None => None,
        }
    } else {
        Some((Seq::empty(), t.drop_first()))
    }
}

/// A quoted text reads back as itself and ends its literal where it ends: no
/// text, whatever quotes it holds, can reach into the statement behind it.
pub proof fn quoted_text_stays_in_its_literal(s: Seq<char>, rest: Seq<char>)
    requires
        rest.len() > 0 ==> rest[0] != '\'',
    ensures
        read_literal(quoted(s) + seq!['\''] + rest) == Some((s, rest)),
    decreases s.len(),
{
    let t = quoted(s) + seq!['\''] + rest;
    if s.len() == 0 {
        assert(t.drop_first() =~= rest);
        assert(s =~= Seq::empty());
    } else {
        let tail = quoted(s.drop_first()) + seq!['\''] + rest;
        quoted_text_stays_in_its_literal(s.drop_first(), rest);
        assert(seq![s[0]] + s.drop_first() =~= s);
        if s[0] == '\'' {
            assert(t.skip(2) =~= tail);
        } else {
            assert(t.drop_first() =~= tail);
        }
    }
}

proof fn lemma_quoted_push(s: Seq<char>, c: char)
    ensures
        quoted(s.push(c)) == quoted(s) + quoted(seq![c]),
    decreases s.len(),
{
    let one = seq![c];
    if s.len() == 0 {
        assert(s.push(c) =~= one);
        assert(quoted(s) + quoted(one) =~= quoted(one));
    } else {
        assert(s.push(c).drop_first() =~= s.drop_first().push(c));
        lemma_quoted_push(s.drop_first(), c);
        assert(quoted(s.push(c)) =~= quoted(s) + quoted(one));
    }
}

/// `s` with every quote doubled: the body of its SQL string literal.
pub fn quote(s: &str) -> (r: String)
    ensures
        r@ == quoted(s@),
{
    let cs: Vec<char> = chars_of(s);
    let mut out = String::new();
    let mut i: usize = 0;
    assert(cs@.take(0) =~= Seq::empty());
    while i < cs.len()
        invariant
            i <= cs.len(),
            out@ == quoted(cs@.take(i as int)),
        decreases cs.len() - i,
    {
        let c: char = cs[i];
        proof {
            let one = seq![c];
            assert(cs@.take(i + 1) =~= cs@.take(i as int).push(c));
            lemma_quoted_push(cs@.take(i as int), c);
            assert(one.drop_first() =~= Seq::empty());
            assert(quoted(one.drop_first()) =~= Seq::empty());
            if c == '\'' {
                assert(quoted(one) =~= seq![c, c]);
            } else {
                assert(quoted(one) =~= seq![c]);
            }
        }
        let ghost before = out@;
        out.push(c);
        if c == '\'' {
            out.push(c);
            assert(out@ =~= before + seq![c, c]);
        } else {
            assert(out@ =~= before + seq![c]);
        }
        i = i + 1;
    }
    assert(cs@.take(i as int) =~= cs@);
    out
}

/// A text in lower case.
pub uninterp spec fn lower(s: Seq<char>) -> Seq<char>;

/// A text in upper case.
pub uninterp spec fn upper(s: Seq<char>) -> Seq<char>;

/// An ASCII letter in lower case; any other character as it is.
pub open spec fn ascii_lower(c: char) -> char {
    if 0x41 <= c as u32 <= 0x5a {
        ((c as u32) + 0x20) as char
    } else {
        c
    }
}

/// An ASCII letter in upper case; any other character as it is.
pub open spec fn ascii_upper(c: char) -> char {
    if 0x61 <= c as u32 <= 0x7a {
        ((c as u32) - 0x20) as char
    } else {
        c
    }
}

/// `str::to_lowercase` is Unicode's lower-case mapping, a function of the text
/// alone. On ASCII text it maps the letters one by one. What it does to other
/// text is left to its name.
pub assume_specification[ str::to_lowercase ](s: &str) -> (r: String)
    ensures
        r@ == lower(s@),
        vstd::utf8::is_ascii_chars(s@) ==> r@ == s@.map_values(|c: char| ascii_lower(c)),
;

/// `str::to_uppercase` is Unicode's upper-case mapping, a function of the text
/// alone. On ASCII text it maps the letters one by one. What it does to other
/// text is left to its name.
pub assume_specification[ str::to_uppercase ](s: &str) -> (r: String)
    ensures
        r@ == upper(s@),
        vstd::utf8::is_ascii_chars(s@) ==> r@ == s@.map_values(|c: char| ascii_upper(c)),
;

/// Whether the word `KEY` stands at position `i` of a text, in any mix of ASCII cases.
pub open spec fn key_at(s: Seq<char>, i: int) -> bool {
    &&& 0 <= i
    &&& i + 3 <= s.len()
    &&& ascii_upper(s[i]) == 'K'
    &&& ascii_upper(s[i + 1]) == 'E'
    &&& ascii_upper(s[i + 2]) == 'Y'
}

/// Whether a text holds the word `KEY`, in any mix of ASCII cases.
pub open spec fn mentions_key(s: Seq<char>) -> bool {
    exists|i: int| #[trigger] key_at(s, i)
}

fn to_ascii_upper(c: char) -> (r: char)
    ensures
        r == ascii_upper(c),
{
    let u: u32 = c as u32;
    if 0x61 <= u && u <= 0x7a {
        ((u - 0x20) as u8) as char
    } else {
        c
    }
}

/// Whether `s` holds the word `KEY`, in any mix of ASCII cases.
pub fn has_key(s: &str) -> (r: bool)
    ensures
        r == mentions_key(s@),
{
    let cs: Vec<char> = chars_of(s);
    let mut i: usize = 0;
    while i < cs.len()
        invariant
            i <= cs.len(),
            cs@ == s@,
            forall|j: int| 0 <= j < i ==> !(#[trigger] key_at(s@, j)),
        decreases cs.len() - i,
    {
        if cs.len() - i >= 3 && to_ascii_upper(cs[i]) == 'K' && to_ascii_upper(cs[i + 1]) == 'E'
            && to_ascii_upper(cs[i + 2]) == 'Y' {
            assert(key_at(s@, i as int));
            return true;
        }
        assert(!key_at(s@, i as int));
        i = i + 1;
    }
    false
}

/// Whether a text is nothing but whitespace.
pub open spec fn blank(s: Seq<char>) -> bool {
    forall|i: int| 0 <= i < s.len() ==> is_space(#[trigger] s[i])
}

proof fn lemma_trimmed_ends(s: Seq<char>) -> (r: (int, int))
    ensures
        0 <= r.0 <= r.1 <= s.len(),
        trimmed(s) == s.subrange(r.0, r.1),
        blank(s.take(r.0)),
        blank(s.skip(r.1)),
        trimmed(s).len() > 0 ==> !is_space(trimmed(s)[0]) && !is_space(trimmed(s).last()),
    decreases s.len(),
{
    if s.len() == 0 {
        assert(s.subrange(0, 0) =~= trimmed(s));
        (0, 0)
    } else if is_space(s[0]) {
        let t = s.drop_first();
        let (a, b) = lemma_trimmed_ends(t);
        assert(s.subrange(a + 1, b + 1) =~= t.subrange(a, b));
        assert(s.skip(b + 1) =~= t.skip(b));
        let front = s.take(a + 1);
        assert forall|i: int| 0 <= i < front.len() implies is_space(#[trigger] front[i]) by {
            if i > 0 {
                assert(t.take(a)[i - 1] == front[i]);
            }
        }
        (a + 1, b + 1)
    } else if is_space(s.last()) {
        let t = s.drop_last();
        let (a, b) = lemma_trimmed_ends(t);
        assert(s.subrange(a, b) =~= t.subrange(a, b));
        assert(s.take(a) =~= t.take(a));
        let back = s.skip(b);
        assert forall|i: int| 0 <= i < back.len() implies is_space(#[trigger] back[i]) by {
            if i < back.len() - 1 {
                assert(t.skip(b)[i] == back[i]);
            }
        }
        (a, b)
    } else {
        assert(s.subrange(0, s.len() as int) =~= s);
        (0, s.len() as int)
    }
}

/// Trimming takes whitespace from the two ends of a text and nothing else: what is
/// left stands in the text as it is, with nothing but whitespace before and behind it,
/// and neither begins nor ends with any.
pub proof fn trimming_takes_whitespace_from_the_ends(s: Seq<char>)
    ensures
        exists|from: int, to: int|
            {
                &&& 0 <= from <= to <= s.len()
                &&& trimmed(s) == #[trigger] s.subrange(from, to)
                &&& blank(s.take(from))
                &&& blank(s.skip(to))
            },
        trimmed(s).len() > 0 ==> !is_space(trimmed(s)[0]) && !is_space(trimmed(s).last()),
{
    let (from, to) = lemma_trimmed_ends(s);
    assert(trimmed(s) == s.subrange(from, to));
}

proof fn lemma_code_point(c: char)
    ensures
        c as u32 as int == c as int,
{
}

/// Of the ASCII characters just the blank and the five control characters from the
/// tab to the carriage return are whitespace; and so is the no-break space.
pub proof fn ascii_whitespace(c: char)
    ensures
        (c as u32) < 0x80 ==> (is_space(c) <==> c == ' ' || c == '\t' || c == '\n' || c == '\r' || c
            as u32 == 0xb || c as u32 == 0xc),
        c as u32 == 0xa0 ==> is_space(c),
{
}

/// A number in decimal is made of decimal digits, does not begin with a zero unless it
/// is one, and reads back as the number.
pub proof fn a_number_reads_back(n: nat)
    ensures
        decimal(n).len() > 0,
        forall|i: int| 0 <= i < decimal(n).len() ==> '0' <= #[trigger] decimal(n)[i] <= '9',
        n > 0 ==> decimal(n)[0] != '0',
        unsigned_value(decimal(n)) == Some(n),
        trimmed(decimal(n)) == decimal(n),
    decreases n,
{
    lemma_digits_read_back(n);
    let s = decimal(n);
    assert(s[0] != '+');
    assert forall|i: int| 0 <= i < s.len() implies is_digit(#[trigger] s[i]) by {
        assert('0' <= decimal(n)[i] <= '9');
        lemma_code_point(s[i]);
    }
    assert(is_digit(s[0]) && is_digit(s[s.len() - 1]));
}

proof fn lemma_digits_read_back(n: nat)
    ensures
        decimal(n).len() > 0,
        forall|i: int| 0 <= i < decimal(n).len() ==> '0' <= #[trigger] decimal(n)[i] <= '9',
        n > 0 ==> decimal(n)[0] != '0',
        digits_value(decimal(n)) == n,
    decreases n,
{
    let s = decimal(n);
    lemma_code_point(s.last());
    if n < 10 {
        assert(s.drop_last() =~= Seq::empty());
        assert(s.last() == digit_char(n as int));
        assert(digits_value(s.drop_last()) == 0);
    } else {
        lemma_digits_read_back(n / 10);
        assert(s.drop_last() =~= decimal(n / 10));
        assert(s.last() == digit_char((n % 10) as int));
        assert(s[0] == decimal(n / 10)[0]);
        assert forall|i: int| 0 <= i < s.len() implies '0' <= #[trigger] s[i] <= '9' by {
            if i < s.len() - 1 {
                assert(s[i] == decimal(n / 10)[i]);
            }
        }
    }
}

/// A digit behind a number is worth one, and all before it ten times as much.
pub proof fn a_digit_is_worth_its_place(s: Seq<char>, c: char)
    requires
        '0' <= c <= '9',
    ensures
        digits_value(s.push(c)) == 10 * digits_value(s) + (c as u32 - '0' as u32),
        digits_value(Seq::<char>::empty()) == 0,
{
    assert(s.push(c).drop_last() =~= s);
}

/// A text is no number where, behind an optional plus sign, it is empty or holds
/// anything but decimal digits.
pub proof fn no_other_text_is_a_number(s: Seq<char>, i: int)
    requires
        0 <= i < s.len(),
        s[i] < '0' || s[i] > '9',
        i > 0 || s[i] != '+' || s.len() == 1,
    ensures
        unsigned_value(s) is None,
        unsigned_value(Seq::<char>::empty()) is None,
{
    let body = past_plus(s);
    lemma_code_point(s[i]);
    if s[0] == '+' {
        if s.len() > 1 {
            assert(body[i - 1] == s[i]);
            assert(!is_digit(body[i - 1]));
        }
    } else {
        assert(body == s);
        assert(!is_digit(body[i]));
    }
}

/// Joining puts the separator between each text and the next, and nowhere else.
pub proof fn joining_goes_on(list: Seq<Seq<char>>, sep: Seq<char>, next: Seq<char>)
    ensures
        joined(Seq::<Seq<char>>::empty(), sep) == Seq::<char>::empty(),
        joined(seq![next], sep) == next,
        list.len() > 0 ==> joined(list.push(next), sep) == joined(list, sep) + sep + next,
{
    assert(list.push(next).drop_last() =~= list);
}

/// Quoting goes through a text character by character: a quote becomes two, and any
/// other character stays as it is.
pub proof fn quoting_doubles_each_quote(s: Seq<char>, c: char)
    ensures
        quoted(Seq::<char>::empty()) == Seq::<char>::empty(),
        quoted(s.push(c)) == if c == '\'' {
            quoted(s).push(c).push(c)
        } else {
            quoted(s).push(c)
        },
{
    lemma_quoted_push(s, c);
    let one = seq![c];
    assert(one.drop_first() =~= Seq::empty());
    assert(quoted(one.drop_first()) =~= Seq::empty());
    if c == '\'' {
        assert(quoted(one) =~= seq![c, c]);
        assert(quoted(s) + seq![c, c] =~= quoted(s).push(c).push(c));
    } else {
        assert(quoted(one) =~= seq![c]);
        assert(quoted(s) + seq![c] =~= quoted(s).push(c));
    }
}

/// A text mentions `KEY` just where its three letters stand in it one behind the
/// other, each large or small.
pub proof fn a_key_is_mentioned_in_any_case(s: Seq<char>, i: int)
    ensures
        0 <= i && i + 3 <= s.len() && (s[i] == 'K' || s[i] == 'k') && (s[i + 1] == 'E' || s[i + 1]
            == 'e') && (s[i + 2] == 'Y' || s[i + 2] == 'y') ==> mentions_key(s),
        mentions_key(s) ==> exists|j: int|
            {
                &&& 0 <= j
                &&& j + 3 <= s.len()
                &&& #[trigger] s[j] == 'K' || s[j] == 'k'
                &&& s[j + 1] == 'E' || s[j + 1] == 'e'
                &&& s[j + 2] == 'Y' || s[j + 2] == 'y'
            },
{
    if 0 <= i && i + 3 <= s.len() {
        lemma_ascii_upper(s[i]);
        lemma_ascii_upper(s[i + 1]);
        lemma_ascii_upper(s[i + 2]);
        if (s[i] == 'K' || s[i] == 'k') && (s[i + 1] == 'E' || s[i + 1] == 'e') && (s[i + 2] == 'Y'
            || s[i + 2] == 'y') {
            assert(key_at(s, i));
        }
    }
    if mentions_key(s) {
        let j = choose|j: int| #[trigger] key_at(s, j);
        lemma_ascii_upper(s[j]);
        lemma_ascii_upper(s[j + 1]);
        lemma_ascii_upper(s[j + 2]);
        assert(s[j] == 'K' || s[j] == 'k');
    }
}

/// A small letter and its capital are one letter, and no two other characters are.
proof fn lemma_ascii_upper(c: char)
    ensures
        ascii_upper(c) == 'K' <==> c == 'K' || c == 'k',
        ascii_upper(c) == 'E' <==> c == 'E' || c == 'e',
        ascii_upper(c) == 'Y' <==> c == 'Y' || c == 'y',
{
    lemma_code_point(c);
}

/// Beyond ASCII just the next line, the no-break space and the blanks and separators of
/// Unicode are whitespace.
pub proof fn unicode_whitespace(c: char)
    requires
        c as u32 >= 0x80,
    ensures
        is_space(c) <==> c as u32 == 0x85 || c as u32 == 0xa0 || c as u32 == 0x1680 || 0x2000 <= c
            as u32 <= 0x200a || c as u32 == 0x2028 || c as u32 == 0x2029 || c as u32 == 0x202f || c
            as u32 == 0x205f || c as u32 == 0x3000,
{
}

/// Trimming leaves a text as it is where that neither begins nor ends with whitespace;
/// so to trim twice is to trim once.
pub proof fn trimming_leaves_the_rest(s: Seq<char>)
    ensures
        s.len() == 0 || (!is_space(s[0]) && !is_space(s.last())) ==> trimmed(s) == s,
        trimmed(trimmed(s)) == trimmed(s),
        blank(s) <==> trimmed(s).len() == 0,
{
    let (from, to) = lemma_trimmed_ends(s);
    if trimmed(s).len() == 0 {
        assert forall|i: int| 0 <= i < s.len() implies is_space(#[trigger] s[i]) by {
            if i < from {
                assert(s.take(from)[i] == s[i]);
            } else {
                assert(s.skip(to)[i - to] == s[i]);
            }
        }
    } else {
        assert(s[from] == trimmed(s)[0]);
    }
}

/// A text of decimal digits writes the number of its digits, with a plus sign before it
/// or none; and a negative number is written as its size behind a minus sign.
pub proof fn a_sign_stands_before_the_digits(s: Seq<char>, n: int)
    requires
        s.len() > 0,
        forall|i: int| 0 <= i < s.len() ==> '0' <= #[trigger] s[i] <= '9',
    ensures
        unsigned_value(s) == Some(digits_value(s)),
        unsigned_value(seq!['+'] + s) == Some(digits_value(s)),
        n >= 0 ==> signed_decimal(n) == decimal(n as nat),
        n < 0 ==> signed_decimal(n) == "-"@ + decimal((-n) as nat),
{
    reveal_strlit("-");
    assert("-"@ =~= seq!['-']);
    assert((seq!['+'] + s).drop_first() =~= s);
    assert forall|i: int| 0 <= i < s.len() implies is_digit(#[trigger] s[i]) by {
        lemma_code_point(s[i]);
    }
    assert(s[0] != '+');
}

} // verus!
