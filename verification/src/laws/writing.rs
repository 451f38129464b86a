//! Texts, numbers and bytes: what is written reads back.

use crate::text::{
    after_digits, contains, decimal, decimal_text, find_from, is_digit, is_same_ignoring_case,
    is_space, join, joined_by, lemma_decimal_digits, lemma_decimal_reads_back, parse_signed,
    parse_unsigned, push_signed, reads_as_real, split, split_on, stands_at, stands_nowhere,
    starts_with, trim_chars, trimmed,
};
use crate::wire::{push_u16, push_u32, read_u16, read_u32, to_signed};
use vstd::prelude::*;

verus! {

/// A number is written with its last digit behind what a tenth of it is written as.
pub proof fn lemma_numbers_are_written(n: u64, r: String, tenth: String)
    requires
        call_ensures(decimal_text, (n,), r),
        call_ensures(decimal_text, (n / 10,), tenth),
    ensures
        n < 10 ==> r@.len() == 1,
        n >= 10 ==> r@.len() == tenth@.len() + 1 && r@.take(tenth@.len() as int) == tenth@,
        r@.last() as int == '0' as int + n % 10,
{
    if n >= 10 {
        assert(r@.take(tenth@.len() as int) =~= tenth@);
    }
}

/// A number that is written in decimal is read as itself, up to the largest that is taken.
pub proof fn lemma_numbers_are_read(n: u64, max: u64, written: &str, text: String, r: Option<u64>)
    requires
        call_ensures(decimal_text, (n,), text),
        written@ == text@,
        call_ensures(parse_unsigned, (written, max), r),
    ensures
        n <= max ==> r == Some(n),
        n > max ==> r is None,
{
    lemma_decimal_digits(n as nat);
    lemma_decimal_reads_back(n as nat, n as nat);
    assert(is_digit(decimal(n as nat)[0]));
}

/// A text with a character that is no digit is no number, but for a sign before it.
pub proof fn lemma_other_texts_are_no_numbers(s: &str, max: u64, k: int, r: Option<u64>, t: Option<i32>)
    requires
        call_ensures(parse_unsigned, (s, max), r),
        call_ensures(parse_signed, (s,), t),
    ensures
        0 < k < s@.len() && !('0' <= s@[k] <= '9') ==> r is None && t is None,
        s@.len() == 0 ==> r is None && t is None,
        s@.len() > 0 && s@[0] == '-' ==> r is None,
        r matches Some(n) ==> n <= max,
{
    if 0 < k < s@.len() && !is_digit(s@[k]) {
        assert(s@.skip(1)[k - 1] == s@[k]);
        assert(!crate::text::all_digits(s@.skip(1)));
        assert(!crate::text::all_digits(s@));
    }
    if s@.len() > 0 && s@[0] == '-' {
        assert(!is_digit(s@[0]));
    }
}

/// A signed number that is written in decimal is read as itself.
pub proof fn lemma_signed_numbers_are_read(
    n: i32,
    buffer: &mut String,
    written: &str,
    r: Option<i32>,
)
    requires
        old(buffer)@.len() == 0,
        call_ensures(push_signed, (buffer, n as i64), ()),
        written@ == final(buffer)@,
        call_ensures(parse_signed, (written,), r),
    ensures
        r == Some(n),
        n < 0 <==> written@[0] == '-',
{
    let magnitude: nat = if n < 0 {
        (-n) as nat
    } else {
        n as nat
    };
    lemma_decimal_digits(magnitude);
    assert(is_digit(decimal(magnitude)[0]));
    assert(written@ =~= crate::text::signed_decimal(n as int));
    if n < 0 {
        assert(written@.skip(1) =~= decimal(magnitude));
    }
}

proof fn lemma_trimmed_part(s: Seq<char>) -> (i: int)
    ensures
        0 <= i && i + trimmed(s).len() <= s.len(),
        s.subrange(i, i + trimmed(s).len()) == trimmed(s),
        forall|k: int| 0 <= k < i ==> is_space(#[trigger] s[k]),
        forall|k: int| i + trimmed(s).len() <= k < s.len() ==> is_space(#[trigger] s[k]),
        trimmed(s).len() > 0 ==> !is_space(trimmed(s)[0]) && !is_space(trimmed(s).last()),
    decreases s.len(),
{
    if s.len() == 0 {
        assert(s.subrange(0, 0) =~= s);
        0
    } else if is_space(s[0]) {
        let rest = s.skip(1);
        let i = lemma_trimmed_part(rest);
        let n = trimmed(s).len();
        assert(s.subrange(i + 1, i + 1 + n) =~= rest.subrange(i, i + n));
        assert forall|k: int| 0 <= k < i + 1 implies is_space(#[trigger] s[k]) by {
            if k > 0 {
                assert(is_space(rest[k - 1]));
            }
        }
        assert forall|k: int| i + 1 + n <= k < s.len() implies is_space(#[trigger] s[k]) by {
            assert(is_space(rest[k - 1]));
        }
        i + 1
    } else if is_space(s.last()) {
        let front = s.drop_last();
        let i = lemma_trimmed_part(front);
        let n = trimmed(s).len();
        assert(s.subrange(i, i + n) =~= front.subrange(i, i + n));
        assert forall|k: int| 0 <= k < i implies is_space(#[trigger] s[k]) by {
            assert(is_space(front[k]));
        }
        assert forall|k: int| i + n <= k < s.len() implies is_space(#[trigger] s[k]) by {
            if k < front.len() {
                assert(is_space(front[k]));
            }
        }
        i
    } else {
        assert(s.subrange(0, s.len() as int) =~= s);
        0
    }
}

/// What is left of a text without white space at its ends lies within it, has none at its ends, and only
/// white space lies around it.
pub proof fn lemma_ends_are_trimmed(s: &[char], r: Vec<char>)
    requires
        call_ensures(trim_chars, (s,), r),
    ensures
        exists|i: int|
            {
                &&& 0 <= i && i + r@.len() <= s@.len()
                &&& #[trigger] s@.subrange(i, i + r@.len()) == r@
                &&& forall|k: int| 0 <= k < i ==> is_space(#[trigger] s@[k])
                &&& forall|k: int| i + r@.len() <= k < s@.len() ==> is_space(#[trigger] s@[k])
            },
        r@.len() > 0 ==> !is_space(r@[0]) && !is_space(r@.last()),
{
    let i = lemma_trimmed_part(s@);
    assert(s@.subrange(i, i + r@.len()) == r@);
}

proof fn lemma_split_joins(s: Seq<char>, c: char)
    ensures
        split_on(s, c).len() > 0,
        joined_by(split_on(s, c), seq![c]) == s,
        forall|i: int, k: int|
            0 <= i < split_on(s, c).len() && 0 <= k < split_on(s, c)[i].len() ==> (
            #[trigger] split_on(s, c)[i][k]) != c,
    decreases s.len(),
{
    let parts = split_on(s, c);
    if s.len() == 0 {
        assert(parts[0] =~= s);
    } else {
        let front = s.drop_last();
        lemma_split_joins(front, c);
        let before = split_on(front, c);
        if s.last() == c {
            assert(parts.drop_last() =~= before);
            assert(joined_by(parts, seq![c]) =~= front + seq![c] + Seq::<char>::empty());
            assert(s =~= front + seq![c]);
        } else {
            let n = before.len() as int;
            let longer = before.last().push(s.last());
            assert(parts.len() == n);
            if n == 1 {
                assert(joined_by(before, seq![c]) == before[0]);
                assert(joined_by(parts, seq![c]) =~= before[0].push(s.last()));
            } else {
                assert(parts.drop_last() =~= before.drop_last());
                assert(joined_by(parts, seq![c]) =~= joined_by(before, seq![c]).push(s.last()));
            }
            assert(s =~= front.push(s.last()));
            assert forall|i: int, k: int| 0 <= i < parts.len() && 0 <= k < parts[i].len() implies (
            #[trigger] parts[i][k]) != c by {
                if i < n - 1 {
                    assert(before[i][k] != c);
                } else if k < before[i].len() {
                    assert(before[i][k] != c);
                }
            }
        }
    }
}

/// The parts of a text hold no separator, and joined by it they are the text.
pub proof fn lemma_parts_make_up_the_text(
    s: &str,
    separator: char,
    mark: &str,
    parts: Vec<String>,
    given: &[String],
    r: String,
)
    requires
        call_ensures(split, (s, separator), parts),
        mark@ == seq![separator],
        given@ == parts@,
        call_ensures(join, (given, mark), r),
    ensures
        parts@.len() > 0,
        forall|i: int, k: int|
            0 <= i < parts@.len() && 0 <= k < parts@[i]@.len() ==> (#[trigger] parts@[i]@[k])
                != separator,
        r@ == s@,
{
    lemma_split_joins(s@, separator);
    let views = given@.map_values(|p: String| p@);
    assert(views =~= split_on(s@, separator));
    assert forall|i: int, k: int| 0 <= i < parts@.len() && 0 <= k < parts@[i]@.len() implies (
    #[trigger] parts@[i]@[k]) != separator by {
        assert(parts@[i]@ == split_on(s@, separator)[i]);
        assert(split_on(s@, separator)[i][k] != separator);
    }
}

/// A text starts with another one where the two agree from the first character on, and contains it where
/// it is made up of something, the other, and something again.
pub proof fn lemma_texts_are_found(
    whole: &str,
    part: &str,
    before: Seq<char>,
    after: Seq<char>,
    starts: bool,
    holds: bool,
)
    requires
        call_ensures(starts_with, (whole, part), starts),
        call_ensures(contains, (whole, part), holds),
    ensures
        whole@ == part@ + after ==> starts,
        whole@ == before + part@ + after ==> holds,
        starts ==> whole@.len() >= part@.len() && forall|k: int|
            0 <= k < part@.len() ==> #[trigger] part@[k] == whole@[k],
        holds ==> exists|x: Seq<char>, y: Seq<char>| whole@ == #[trigger] (x + part@ + y),
{
    if whole@ == part@ + after {
        assert(whole@.subrange(0, part@.len() as int) =~= part@);
    }
    if whole@ == before + part@ + after {
        let i = before.len() as int;
        assert(whole@.subrange(i, i + part@.len()) =~= part@);
        assert(stands_at(whole@, part@, i));
    }
    if starts {
        assert forall|k: int| 0 <= k < part@.len() implies #[trigger] part@[k] == whole@[k] by {
            assert(whole@.subrange(0, part@.len() as int)[k] == whole@[k]);
        }
    }
    if holds {
        let i = choose|i: int| stands_at(whole@, part@, i);
        assert(stands_at(whole@, part@, i));
        let x = whole@.take(i);
        let y = whole@.skip(i + part@.len());
        assert(whole@ =~= x + whole@.subrange(i, i + part@.len()) + y);
        assert(whole@ == x + part@ + y);
    }
}

/// The first place of a text is found: it stands there, and nowhere before.
pub proof fn lemma_first_place_is_found(
    whole: &[char],
    part: &[char],
    from: usize,
    r: Option<usize>,
    j: int,
)
    requires
        call_ensures(find_from, (whole, part, from), r),
        from <= j,
        j + part@.len() <= whole@.len(),
        forall|k: int| 0 <= k < part@.len() ==> #[trigger] part@[k] == whole@[j + k],
    ensures
        r is Some,
        from <= r->0 <= j,
        forall|k: int| 0 <= k < part@.len() ==> #[trigger] part@[k] == whole@[r->0 + k],
{
    assert(whole@.subrange(j, j + part@.len()) =~= part@);
    assert(stands_at(whole@, part@, j));
    if r is None {
        assert(stands_nowhere(whole@, part@, from as int));
    } else {
        let i = r->0 as int;
        assert forall|k: int| 0 <= k < part@.len() implies #[trigger] part@[k] == whole@[i + k] by {
            assert(whole@.subrange(i, i + part@.len())[k] == whole@[i + k]);
        }
    }
}

/// Two texts that differ in the case of a letter only are the same; in another character, they are not.
pub proof fn lemma_case_does_not_matter(a: &[char], b: &[char], k: int, r: bool)
    requires
        call_ensures(is_same_ignoring_case, (a, b), r),
    ensures
        a@ == b@ ==> r,
        a@.len() != b@.len() ==> !r,
        0 <= k < a@.len() && 'a' <= a@[k] <= 'z' && b@ == a@.update(
            k,
            (a@[k] as int - 32) as char,
        ) ==> r,
        0 <= k < a@.len() && k < b@.len() && '0' <= a@[k] <= '9' && b@[k] != a@[k] ==> !r,
{
    if 0 <= k < a@.len() && 'a' <= a@[k] <= 'z' && b@ == a@.update(k, (a@[k] as int - 32) as char) {
        assert(forall|i: int| 0 <= i < a@.len() && i != k ==> #[trigger] a@[i] == b@[i]);
        assert(crate::text::lower(a@[k]) == crate::text::lower(b@[k]));
    }
}

/// Bytes that are written as a number read back as it, and the lowest byte comes first.
pub proof fn lemma_bytes_read_back(
    out: &mut Vec<u8>,
    wide: &mut Vec<u8>,
    v: u16,
    w: u32,
    bytes: &[u8],
    i: usize,
    a: u16,
    more: &[u8],
    j: usize,
    b: u32,
)
    requires
        call_ensures(push_u16, (out, v), ()),
        bytes@ == final(out)@,
        i == old(out)@.len(),
        call_ensures(read_u16, (bytes, i), a),
        call_ensures(push_u32, (wide, w), ()),
        more@ == final(wide)@,
        j == old(wide)@.len(),
        call_ensures(read_u32, (more, j), b),
    ensures
        a == v,
        b == w,
        bytes@.len() == i + 2 && bytes@[i as int] == v % 256,
        more@.len() == j + 4 && more@[j as int] == w % 256,
        bytes@.take(i as int) == old(out)@,
        more@.take(j as int) == old(wide)@,
{
    assert(bytes@.take(i as int) =~= old(out)@);
    assert(more@.take(j as int) =~= old(wide)@);
}

/// A pattern of bits with the highest one set is a negative number.
pub proof fn lemma_patterns_are_signed(n: u32, r: i32)
    requires
        call_ensures(to_signed, (n,), r),
    ensures
        r >= 0 <==> n <= i32::MAX,
        (r - n) % 0x1_0000_0000 == 0,
{
}

/// A text of digits only, with at least one.
pub open spec fn is_digits(s: Seq<char>) -> bool {
    s.len() > 0 && forall|k: int| 0 <= k < s.len() ==> '0' <= #[trigger] s[k] <= '9'
}

proof fn lemma_after_digits(s: Seq<char>, i: int, n: int)
    requires
        0 <= i <= n <= s.len(),
        forall|k: int| i <= k < n ==> is_digit(#[trigger] s[k]),
        n == s.len() || !is_digit(s[n]),
    ensures
        after_digits(s, i) == n,
    decreases n - i,
{
    if i < n {
        assert(is_digit(s[i]));
        lemma_after_digits(s, i + 1, n);
    }
}

/// Digits are a real number, and so are digits with a sign before them, with a point and digits behind
/// them, or with the letter e and digits behind them. What starts like no number is none.
pub proof fn lemma_reals_are_told(s: &[char], a: Seq<char>, b: Seq<char>, r: bool)
    requires
        call_ensures(reads_as_real, (s,), r),
        is_digits(a),
        is_digits(b),
    ensures
        s@ == a ==> r,
        s@ == seq!['-'] + a || s@ == seq!['+'] + a ==> r,
        s@ == a + seq!['.'] + b ==> r,
        s@ == a + seq!['e'] + b ==> r,
        s@.len() == 0 ==> !r,
        s@.len() > 0 && 'A' <= s@[0] <= 'H' || s@.len() > 0 && 'o' <= s@[0] <= 'z' ==> !r,
{
    let n = a.len() as int;
    reveal_strlit("inf");
    reveal_strlit("infinity");
    reveal_strlit("nan");
    assert("inf"@.len() == 3 && "inf"@[0] == 'i');
    assert("infinity"@.len() == 8 && "infinity"@[0] == 'i');
    assert("nan"@.len() == 3 && "nan"@[0] == 'n');
    assert(is_digit(a[0]) && is_digit(b[0]));
    if s@ == a {
        lemma_after_digits(a, 0, n);
    }
    if s@ == seq!['-'] + a || s@ == seq!['+'] + a {
        assert(s@.skip(1) =~= a);
        lemma_after_digits(a, 0, n);
    }
    if s@ == a + seq!['.'] + b {
        assert(s@[n] == '.' && s@[0] == a[0]);
        assert forall|k: int| 0 <= k < n implies is_digit(#[trigger] s@[k]) by {
            assert(s@[k] == a[k]);
        }
        assert forall|k: int| n + 1 <= k < s@.len() implies is_digit(#[trigger] s@[k]) by {
            assert(s@[k] == b[k - n - 1]);
        }
        lemma_after_digits(s@, 0, n);
        lemma_after_digits(s@, n + 1, s@.len() as int);
    }
    if s@ == a + seq!['e'] + b {
        assert(s@[n] == 'e' && s@[0] == a[0] && s@[n + 1] == b[0]);
        assert forall|k: int| 0 <= k < n implies is_digit(#[trigger] s@[k]) by {
            assert(s@[k] == a[k]);
        }
        assert forall|k: int| n + 1 <= k < s@.len() implies is_digit(#[trigger] s@[k]) by {
            assert(s@[k] == b[k - n - 1]);
        }
        lemma_after_digits(s@, 0, n);
        lemma_after_digits(s@, n + 1, s@.len() as int);
    }
    if s@.len() > 0 && !is_digit(s@[0]) {
        lemma_after_digits(s@, 0, 0);
    }
    if s@.len() == 0 {
        assert(after_digits(s@, 0) == 0);
    }
}

} // verus!
