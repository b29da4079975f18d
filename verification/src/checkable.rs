//! Which text the rule engine can be run on. It computes with the count in a numeric
//! TYPE code (`3SF`, `1SCI`), and two counts it does not bear with every value.

use laterite_ags4_validator::parse::parse_str;
use vstd::prelude::*;
use vstd::string::*;

use crate::certify::text_edition;
use crate::text::{
    a_number_reads_back, ascii_lower, ascii_whitespace, chars_of, decimal, digits_value, is_digit,
    is_space, lemma_digits_value_grows, opt_text, past_plus, same, texts, trim, trimmed,
    trimming_leaves_the_rest, unsigned_value,
};

verus! {

/// The columns of the groups of AGS4 text, each a TYPE code and the values under it,
/// or why the text does not parse.
pub uninterp spec fn typed_columns(content: Seq<char>) -> Result<
    Seq<(Seq<char>, Seq<Seq<char>>)>,
    Seq<char>,
>;

/// What a list of columns holds.
pub open spec fn columns_held(columns: Seq<(String, Vec<String>)>) -> Seq<
    (Seq<char>, Seq<Seq<char>>),
> {
    Seq::new(columns.len(), |i: int| (columns[i].0@, texts(columns[i].1@)))
}

/// `laterite_ags4_validator::parse::parse_str` parses AGS4 text, into what the rules
/// are run on: here each code of a group's TYPE row, with the value under it of each
/// row, empty where the row is too short. Which columns there are is left to the name.
#[verifier::external_body]
pub(crate) fn columns_of_text(content: &str) -> (r: Result<Vec<(String, Vec<String>)>, String>)
    ensures
        match r {
            Ok(columns) => typed_columns(content@) == Ok::<
                Seq<(Seq<char>, Seq<Seq<char>>)>,
                Seq<char>,
            >(columns_held(columns@)),
            Err(e) => typed_columns(content@) == Err::<
                Seq<(Seq<char>, Seq<Seq<char>>)>,
                Seq<char>,
            >(e@),
        },
        r is Ok <==> text_edition(content@) is Ok,
{
    let p = parse_str(content).map_err(|e| e.to_string())?;
    let groups = p.group_order.iter().map(|code| &p.groups[code]);
    Ok(groups.flat_map(|g| g.types.iter().enumerate().map(move |(i, code)| {
        let values = g.rows.iter().map(|row| g.value_at(row, i).unwrap_or("").to_string());
        (code.clone(), values.collect())
    })).collect())
}

/// How the number that a text writes is printed, to the nearest whole number: nothing
/// where the text writes none.
pub uninterp spec fn number_printed(v: Seq<char>) -> Option<Seq<char>>;

/// Whether what is printed is an infinite number.
pub open spec fn infinite(printed: Option<Seq<char>>) -> bool {
    printed == Some("inf"@) || printed == Some("-inf"@)
}

/// Whether a text is a word for an infinite number, with a sign or none.
pub open spec fn spells_infinity(v: Seq<char>) -> bool {
    let word = if v.len() > 0 && (v[0] == '+' || v[0] == '-') {
        v.drop_first()
    } else {
        v
    };
    let small = word.map_values(|c: char| ascii_lower(c));
    small == "inf"@ || small == "infinity"@
}

/// Whether a text holds what a number needs to be infinite without the word for it: a
/// digit, and an exponent or more characters than a finite number has digits.
pub open spec fn may_overflow(v: Seq<char>) -> bool {
    &&& exists|i: int| 0 <= i < v.len() && is_digit(#[trigger] v[i])
    &&& v.len() > 308 || exists|i: int| 0 <= i < v.len() && ascii_lower(#[trigger] v[i]) == 'e'
}

/// `str::parse` reads a floating-point number, and `laterite_ags4_types::format_ndp`
/// prints it without decimals: `inf` or `-inf` for an infinite one. The words for an
/// infinite number give one; any other text that does has a digit, and an exponent or
/// more than 308 characters. Which other text writes which number is left to the name.
#[verifier::external_body]
pub(crate) fn print_number(v: &str) -> (r: Option<String>)
    ensures
        opt_text(r) == number_printed(v@),
        spells_infinity(v@) ==> infinite(opt_text(r)),
        infinite(opt_text(r)) ==> spells_infinity(v@) || may_overflow(v@),
{
    v.parse().ok().map(|number| laterite_ags4_types::format_ndp(number, 0))
}

/// The count of a TYPE code of a family: the number that the digits before the family's
/// name write, where there are digits and nothing else.
pub open spec fn count_of(code: Seq<char>, family: Seq<char>) -> Option<nat> {
    let c = trimmed(code);
    let n = c.len() - family.len();
    if n > 0 && c.skip(n) == family && (forall|i: int| 0 <= i < n ==> is_digit(#[trigger] c[i])) {
        Some(digits_value(c.take(n)))
    } else {
        None
    }
}

/// Whether an `nSCI` code has a count that is a length, but no longer is one with the
/// four characters that such a value has besides.
pub open spec fn overlong(code: Seq<char>) -> bool {
    count_of(code, "SCI"@) is Some && usize::MAX - 4 < count_of(code, "SCI"@)->Some_0 <= usize::MAX
}

/// Whether the rules can be run on a value under a TYPE code: a count that overflows
/// does so with any value, and no significant figures are not to be had of an infinite
/// number.
pub open spec fn bears(code: Seq<char>, v: Seq<char>) -> bool {
    &&& overlong(code) ==> v.len() == 0
    &&& count_of(code, "SF"@) == Some(0nat) ==> !infinite(number_printed(trimmed(v)))
}

/// Whether the rules can be run on columns: on each value under its TYPE code.
pub open spec fn checkable(columns: Seq<(Seq<char>, Seq<Seq<char>>)>) -> bool {
    forall|i: int, j: int|
        0 <= i < columns.len() && 0 <= j < columns[i].1.len() ==> bears(
            columns[i].0,
            #[trigger] columns[i].1[j],
        )
}

/// Whether a value stands under a TYPE code for no significant figures and is a word
/// for an infinite number.
pub open spec fn spelt_out(code: Seq<char>, v: Seq<char>) -> bool {
    count_of(code, "SF"@) == Some(0nat) && spells_infinity(trimmed(v))
}

/// Whether it shows in the characters of a value that the rules can be run on it under
/// a TYPE code: no number has to be read for that.
pub open spec fn plainly_borne(code: Seq<char>, v: Seq<char>) -> bool {
    &&& overlong(code) ==> v.len() == 0
    &&& count_of(code, "SF"@) == Some(0nat) ==> !spells_infinity(trimmed(v)) && !may_overflow(
        trimmed(v),
    )
}

/// The count of a TYPE code of a family, where it is a length.
pub fn type_count(code: &str, family: &str) -> (r: Option<usize>)
    ensures
        match count_of(code@, family@) {
            Some(n) => if n <= usize::MAX {
                r == Some(n as usize)
            } else {
                r is None
            },
            None => r is None,
        },
{
    let c = chars_of(trim(code));
    let f = chars_of(family);
    if c.len() <= f.len() {
        return None;
    }
    let n = c.len() - f.len();
    let ghost head = c@.take(n as int);
    let mut i: usize = 0;
    while i < f.len()
        invariant
            i <= f@.len(),
            n + f@.len() == c@.len(),
            c@.len() <= usize::MAX,
            f@ == family@,
            c@ == trimmed(code@),
            forall|j: int| 0 <= j < i ==> c@[n + j] == #[trigger] f@[j],
        decreases f@.len() - i,
    {
        if c[n + i] != f[i] {
            assert(c@.skip(n as int)[i as int] != family@[i as int]);
            return None;
        }
        i = i + 1;
    }
    assert(c@.skip(n as int) =~= family@);
    let mut k: usize = 0;
    while k < n
        invariant
            k <= n <= c@.len(),
            n == c@.len() - family@.len(),
            c@ == trimmed(code@),
            forall|j: int| 0 <= j < k ==> is_digit(#[trigger] c@[j]),
        decreases n - k,
    {
        let u: u32 = c[k] as u32;
        if u < 0x30 || u > 0x39 {
            assert(!is_digit(c@[k as int]));
            return None;
        }
        k = k + 1;
    }
    assert(count_of(code@, family@) == Some(digits_value(head)));
    let mut value: usize = 0;
    let mut p: usize = 0;
    while p < n
        invariant
            p <= n <= c@.len(),
            head == c@.take(n as int),
            forall|j: int| 0 <= j < head.len() ==> is_digit(#[trigger] head[j]),
            value == digits_value(head.take(p as int)),
            count_of(code@, family@) == Some(digits_value(head)),
        decreases n - p,
    {
        assert(is_digit(head[p as int]));
        let d: usize = (c[p] as u32 - 0x30) as usize;
        proof {
            assert(head.take(p + 1).drop_last() =~= head.take(p as int));
            lemma_digits_value_grows(head, p + 1);
        }
        if value > (usize::MAX - d) / 10 {
            return None;
        }
        value = value * 10 + d;
        p = p + 1;
    }
    assert(head.take(n as int) =~= head);
    Some(value)
}

/// Whether what is printed is an infinite number.
pub fn is_infinite(printed: &Option<String>) -> (r: bool)
    ensures
        r == infinite(opt_text(*printed)),
{
    match printed {
        Some(p) => same(p.as_str(), "inf") || same(p.as_str(), "-inf"),
        None => false,
    }
}

/// Whether the rules can be run on columns, each a TYPE code and the values under it.
pub fn is_checkable(columns: &Vec<(String, Vec<String>)>) -> (r: bool)
    ensures
        r == checkable(columns_held(columns@)),
        ({
            let held = columns_held(columns@);
            forall|i: int, j: int|
                0 <= i < held.len() && 0 <= j < held[i].1.len() ==> plainly_borne(
                    held[i].0,
                    #[trigger] held[i].1[j],
                )
        }) ==> r,
        ({
            let held = columns_held(columns@);
            exists|i: int, j: int|
                0 <= i < held.len() && 0 <= j < held[i].1.len() && spelt_out(
                    held[i].0,
                    #[trigger] held[i].1[j],
                )
        }) ==> !r,
{
    let ghost held = columns_held(columns@);
    let mut i: usize = 0;
    while i < columns.len()
        invariant
            i <= columns@.len(),
            held == columns_held(columns@),
            forall|a: int, b: int|
                0 <= a < i && 0 <= b < held[a].1.len() ==> bears(
                    held[a].0,
                    #[trigger] held[a].1[b],
                ) && !spelt_out(held[a].0, held[a].1[b]),
        decreases columns@.len() - i,
    {
        let code = columns[i].0.as_str();
        let values = &columns[i].1;
        let too_long = match type_count(code, "SCI") {
            Some(n) => n > usize::MAX - 4,
            None => false,
        };
        let no_figures = match type_count(code, "SF") {
            Some(n) => n == 0,
            None => false,
        };
        let mut j: usize = 0;
        while j < values.len()
            invariant
                i < columns@.len(),
                held == columns_held(columns@),
                j <= values@.len(),
                code@ == held[i as int].0,
                texts(values@) == held[i as int].1,
                too_long == overlong(code@),
                no_figures == (count_of(code@, "SF"@) == Some(0nat)),
                forall|a: int, b: int|
                    0 <= a < i && 0 <= b < held[a].1.len() ==> bears(
                        held[a].0,
                        #[trigger] held[a].1[b],
                    ) && !spelt_out(held[a].0, held[a].1[b]),
                forall|b: int|
                    0 <= b < j ==> bears(held[i as int].0, #[trigger] held[i as int].1[b])
                        && !spelt_out(held[i as int].0, held[i as int].1[b]),
            decreases values@.len() - j,
        {
            let v = values[j].as_str();
            assert(v@ == held[i as int].1[j as int]);
            if too_long && !v.is_empty() {
                assert(!bears(held[i as int].0, held[i as int].1[j as int]));
                assert(!plainly_borne(held[i as int].0, held[i as int].1[j as int]));
                return false;
            }
            if no_figures && is_infinite(&print_number(trim(v))) {
                assert(!bears(held[i as int].0, held[i as int].1[j as int]));
                assert(!plainly_borne(held[i as int].0, held[i as int].1[j as int]));
                return false;
            }
            j = j + 1;
        }
        i = i + 1;
    }
    true
}

proof fn lemma_count_of(n: nat, family: Seq<char>)
    requires
        family.len() > 0,
        !is_space(family.last()),
    ensures
        count_of(decimal(n) + family, family) == Some(n),
{
    let digits = decimal(n);
    let code = digits + family;
    a_number_reads_back(n);
    ascii_whitespace(code[0]);
    lemma_digit_points(digits[0]);
    assert(code[0] == digits[0]);
    assert(code.last() == family.last());
    trimming_leaves_the_rest(code);
    assert(trimmed(code) == code);
    assert(code.skip(digits.len() as int) =~= family);
    assert(code.take(digits.len() as int) =~= digits);
    assert forall|i: int| 0 <= i < digits.len() implies is_digit(#[trigger] code[i]) by {
        assert('0' <= digits[i] <= '9');
        lemma_digit_points(digits[i]);
        assert(code[i] == digits[i]);
    }
    assert(past_plus(digits) == digits) by {
        assert(digits[0] != '+');
    }
    assert(unsigned_value(digits) == Some(digits_value(digits)));
}

proof fn lemma_digit_points(c: char)
    ensures
        '0' <= c <= '9' <==> is_digit(c),
        is_digit(c) ==> (c as u32) < 0x80 && c != ' ' && c != '\t' && c != '\n' && c != '\r' && c
            as u32 != 0xb && c as u32 != 0xc,
{
}

/// The count of an `nSF` or an `nSCI` code is the `n` that stands before the letters,
/// whatever whitespace is around the code.
pub proof fn a_count_stands_before_its_letters(n: nat, code: Seq<char>)
    ensures
        count_of(decimal(n) + "SF"@, "SF"@) == Some(n),
        count_of(decimal(n) + "SCI"@, "SCI"@) == Some(n),
        count_of(code, "SF"@) == count_of(trimmed(code), "SF"@),
        count_of(code, "SCI"@) == count_of(trimmed(code), "SCI"@),
{
    reveal_strlit("SF");
    reveal_strlit("SCI");
    ascii_whitespace('F');
    ascii_whitespace('I');
    lemma_count_of(n, "SF"@);
    lemma_count_of(n, "SCI"@);
    trimming_leaves_the_rest(code);
}

/// A code has no count of a family where, behind its whitespace, it does not end in the
/// letters of the family, where nothing stands before them, or where anything but
/// decimal digits does.
pub proof fn no_other_code_has_a_count(code: Seq<char>, family: Seq<char>, i: int)
    requires
        ({
            let c = trimmed(code);
            let n = c.len() - family.len();
            ||| n <= 0
            ||| c.skip(n) != family
            ||| 0 <= i < n && (c[i] < '0' || c[i] > '9')
        }),
    ensures
        count_of(code, family) is None,
{
    let c = trimmed(code);
    if 0 <= i < c.len() - family.len() {
        lemma_digit_points(c[i]);
        assert(!is_digit(c[i]) || c.skip(c.len() - family.len()) != family);
    }
}

/// The rules can be run on a value under a TYPE code but in two cases: the value is not
/// empty and the code is an `nSCI` whose count is a length that four more overflow; or
/// the code is an `nSF` for no figures and the value reads as an infinite number.
pub proof fn all_but_two_counts_are_borne(code: Seq<char>, v: Seq<char>)
    ensures
        bears(code, v) <==> {
            &&& !(v.len() > 0 && count_of(code, "SCI"@) is Some && count_of(code, "SCI"@)->Some_0
                <= usize::MAX && count_of(code, "SCI"@)->Some_0 + 4 > usize::MAX)
            &&& !(count_of(code, "SF"@) == Some(0nat) && (number_printed(trimmed(v)) == Some(
                "inf"@,
            ) || number_printed(trimmed(v)) == Some("-inf"@)))
        },
{
}

/// Columns can be checked where each value of each can: one more column can be where
/// those before it can, and the rules bear each of its values under its code.
pub proof fn each_value_of_each_column_is_checked(
    columns: Seq<(Seq<char>, Seq<Seq<char>>)>,
    code: Seq<char>,
    values: Seq<Seq<char>>,
)
    ensures
        checkable(Seq::empty()),
        checkable(columns.push((code, values))) <==> {
            &&& checkable(columns)
            &&& forall|j: int| 0 <= j < values.len() ==> bears(code, #[trigger] values[j])
        },
{
    let all = columns.push((code, values));
    if checkable(all) {
        assert forall|i: int, j: int|
            0 <= i < columns.len() && 0 <= j < columns[i].1.len() implies bears(
            columns[i].0,
            #[trigger] columns[i].1[j],
        ) by {
            assert(all[i] == columns[i]);
            assert(bears(all[i].0, all[i].1[j]));
        }
        assert forall|j: int| 0 <= j < values.len() implies bears(code, #[trigger] values[j]) by {
            let i = columns.len() as int;
            assert(all[i] == (code, values));
            assert(bears(all[i].0, all[i].1[j]));
        }
    }
    if checkable(columns) && (forall|j: int|
        0 <= j < values.len() ==> bears(code, #[trigger] values[j])) {
        assert forall|i: int, j: int| 0 <= i < all.len() && 0 <= j < all[i].1.len() implies bears(
            all[i].0,
            #[trigger] all[i].1[j],
        ) by {
            if i < columns.len() {
                assert(bears(columns[i].0, columns[i].1[j]));
            } else {
                assert(bears(code, values[j]));
            }
        }
    }
}

} // verus!
