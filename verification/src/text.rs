//! Text on the level of characters: trimming, splitting, searching, ordering
//! and decimal numbers.
use vstd::prelude::*;

verus! {

/// `String::push` appends one character and leaves the rest as it was.
pub assume_specification[ String::push ](string: &mut String, ch: char)
    ensures
        final(string)@ == old(string)@.push(ch),
;

/// The characters that Unicode calls white space.
pub open spec fn is_white(c: char) -> bool {
    ||| '\u{9}' <= c <= '\u{d}'
    ||| c == ' '
    ||| c == '\u{85}'
    ||| c == '\u{a0}'
    ||| c == '\u{1680}'
    ||| '\u{2000}' <= c <= '\u{200a}'
    ||| c == '\u{2028}'
    ||| c == '\u{2029}'
    ||| c == '\u{202f}'
    ||| c == '\u{205f}'
    ||| c == '\u{3000}'
}

/// The index of the first character that satisfies `pred`; the length when
/// there is none.
pub open spec fn first_index(s: Seq<char>, pred: spec_fn(char) -> bool) -> int
    decreases s.len(),
{
    if s.len() == 0 || pred(s[0]) {
        0
    } else {
        1 + first_index(s.drop_first(), pred)
    }
}

/// `s` without its leading white space.
pub open spec fn trim_start(s: Seq<char>) -> Seq<char> {
    s.skip(first_index(s, |c: char| !is_white(c)))
}

/// `s` without its trailing white space.
pub open spec fn trim_end(s: Seq<char>) -> Seq<char>
    decreases s.len(),
{
    if s.len() > 0 && is_white(s.last()) {
        trim_end(s.drop_last())
    } else {
        s
    }
}

/// `s` without white space at either end.
pub open spec fn trimmed(s: Seq<char>) -> Seq<char> {
    trim_end(trim_start(s))
}

/// A line without the carriage return that stands before its line feed.
pub open spec fn without_return(s: Seq<char>) -> Seq<char> {
    if s.len() > 0 && s.last() == '\r' {
        s.drop_last()
    } else {
        s
    }
}

/// The lines of `s`. A line ends at a line feed, with or without a carriage
/// return before it; the line feed of the last line is optional.
pub open spec fn lines_of(s: Seq<char>) -> Seq<Seq<char>>
    decreases s.len(),
{
    if s.len() == 0 {
        seq![]
    } else {
        let end = first_index(s, |c: char| c == '\n');
        if 0 <= end < s.len() {
            seq![without_return(s.take(end))] + lines_of(s.skip(end + 1))
        } else {
            seq![s]
        }
    }
}

/// Whether `part` occurs in `s`.
pub open spec fn occurs(s: Seq<char>, part: Seq<char>) -> bool {
    exists|i: int|
        0 <= i && i + part.len() <= s.len() && #[trigger] s.subrange(i, i + part.len()) == part
}

/// What stands in `s` before the first occurrence of `mark`; all of `s` when
/// `mark` does not occur.
pub open spec fn before(s: Seq<char>, mark: Seq<char>) -> Seq<char>
    decreases s.len(),
{
    if s.len() == 0 || mark.is_prefix_of(s) {
        seq![]
    } else {
        seq![s[0]] + before(s.drop_first(), mark)
    }
}

pub open spec fn lower_char(c: char) -> char {
    if 'A' <= c <= 'Z' {
        (c as u32 + 32) as char
    } else {
        c
    }
}

/// `s` with the ASCII letters in lower case and everything else unchanged.
pub open spec fn lowered(s: Seq<char>) -> Seq<char> {
    s.map_values(|c: char| lower_char(c))
}

/// The order of texts: by the first character that differs; a prefix comes
/// before what it starts.
pub open spec fn text_less(a: Seq<char>, b: Seq<char>) -> bool
    decreases a.len(),
{
    if b.len() == 0 {
        false
    } else if a.len() == 0 {
        true
    } else if a[0] == b[0] {
        text_less(a.drop_first(), b.drop_first())
    } else {
        a[0] < b[0]
    }
}

pub open spec fn digit_char(d: nat) -> char {
    (48 + d) as char
}

/// `n` in decimal, without leading zeros.
pub open spec fn decimal(n: nat) -> Seq<char>
    decreases n,
{
    if n < 10 {
        seq![digit_char(n)]
    } else {
        decimal(n / 10).push(digit_char(n % 10))
    }
}

pub open spec fn signed_decimal(n: int) -> Seq<char> {
    if n < 0 {
        seq!['-'] + decimal((-n) as nat)
    } else {
        decimal(n as nat)
    }
}

pub open spec fn is_digit(c: char) -> bool {
    '0' <= c <= '9'
}

/// The number that a row of digits stands for.
pub open spec fn digits_value(s: Seq<char>) -> nat
    decreases s.len(),
{
    if s.len() == 0 {
        0
    } else {
        digits_value(s.drop_last()) * 10 + (s.last() as u32 - 48) as nat
    }
}

/// `s` without one leading plus sign.
pub open spec fn without_plus(s: Seq<char>) -> Seq<char> {
    if s.len() > 0 && s[0] == '+' {
        s.drop_first()
    } else {
        s
    }
}

/// The number that `s` writes down: an optional plus sign and then digits
/// only, at least one, whose value fits.
pub open spec fn number_of(s: Seq<char>) -> Option<u32> {
    let digits = without_plus(s);
    if digits.len() > 0 && (forall|i: int| 0 <= i < digits.len() ==> is_digit(#[trigger] digits[i]))
        && digits_value(digits) <= u32::MAX {
        Some(digits_value(digits) as u32)
    } else {
        None
    }
}

/// `items` one after the other, with `mark` between two of them.
pub open spec fn joined(items: Seq<Seq<char>>, mark: Seq<char>) -> Seq<char>
    decreases items.len(),
{
    if items.len() == 0 {
        seq![]
    } else if items.len() == 1 {
        items[0]
    } else {
        joined(items.drop_last(), mark) + mark + items.last()
    }
}

/// How `str::parse::<u32>` words its refusal of a text.
pub uninterp spec fn number_refusal(text: Seq<char>) -> Seq<char>;

/// `str::parse::<u32>`. It accepts an optional plus sign followed by digits
/// only, when the value fits in 32 bits, and returns that value. The wording
/// of a refusal is a function of the text and is named, not spelled out.
#[verifier::external_body]
pub(crate) fn parse_number(text: &str) -> (result: Result<u32, String>)
    ensures
        match result {
            Ok(value) => number_of(text@) == Some(value),
            Err(reason) => number_of(text@) is None && reason@ == number_refusal(text@),
        },
{
    text.parse::<u32>().map_err(|err| err.to_string())
}

/// The characters of `text`, one by one.
pub fn chars_of(text: &str) -> (chars: Vec<char>)
    ensures
        chars@ == text@,
{
    let mut chars: Vec<char> = Vec::new();
    for c in iter: text.chars()
        invariant
            chars@ == iter.seq().take(iter.index()),
            iter.seq() == text@,
    {
        proof {
            assert(iter.seq().take(iter.index() + 1) =~= iter.seq().take(iter.index()).push(c));
        }
        chars.push(c);
    }
    assert(text@.take(text@.len() as int) =~= text@);
    chars
}

/// The text of `chars` from index `from` up to, and without, index `to`.
pub fn text_between(chars: &Vec<char>, from: usize, to: usize) -> (text: String)
    requires
        from <= to <= chars.len(),
    ensures
        text@ == chars@.subrange(from as int, to as int),
{
    let mut text = String::new();
    let mut i: usize = from;
    while i < to
        invariant
            from <= i <= to <= chars.len(),
            text@ == chars@.subrange(from as int, i as int),
        decreases to - i,
    {
        text.push(chars[i]);
        i += 1;
        assert(chars@.subrange(from as int, i as int) =~= chars@.subrange(
            from as int,
            i - 1,
        ).push(chars@[i - 1]));
    }
    text
}

/// Whether two texts are the same.
pub fn same_text(a: &str, b: &str) -> (same: bool)
    ensures
        same == (a@ == b@),
{
    a.to_string() == b.to_string()
}

/// Whether two optional texts are the same.
pub fn same_optional_text(a: &Option<String>, b: &Option<String>) -> (same: bool)
    ensures
        same == (a.deep_view() == b.deep_view()),
{
    match (a, b) {
        (Some(x), Some(y)) => *x == *y,
        (None, None) => true,
        _ => false,
    }
}

pub fn white(c: char) -> (yes: bool)
    ensures
        yes == is_white(c),
{
    ('\u{9}' <= c && c <= '\u{d}') || c == ' ' || c == '\u{85}' || c == '\u{a0}' || c == '\u{1680}'
        || ('\u{2000}' <= c && c <= '\u{200a}') || c == '\u{2028}' || c == '\u{2029}' || c
        == '\u{202f}' || c == '\u{205f}' || c == '\u{3000}'
}

/// A first index is found by what stands before it and at it.
pub proof fn lemma_first_index(s: Seq<char>, pred: spec_fn(char) -> bool, n: int)
    requires
        0 <= n <= s.len(),
        forall|i: int| 0 <= i < n ==> !pred(#[trigger] s[i]),
        n < s.len() ==> pred(s[n]),
    ensures
        first_index(s, pred) == n,
    decreases n,
{
    if n > 0 {
        assert(forall|i: int| 0 <= i < n - 1 ==> s.drop_first()[i] == s[i + 1]);
        assert(s.drop_first().len() == s.len() - 1);
        assert(n < s.len() ==> s.drop_first()[n - 1] == s[n]);
        lemma_first_index(s.drop_first(), pred, n - 1);
    }
}

/// `text` without white space at either end.
pub fn trim(text: &str) -> (result: String)
    ensures
        result@ == trimmed(text@),
{
    let chars = chars_of(text);
    let mut from: usize = 0;
    while from < chars.len() && white(chars[from])
        invariant
            from <= chars.len(),
            forall|i: int| 0 <= i < from ==> is_white(#[trigger] chars@[i]),
        decreases chars.len() - from,
    {
        from += 1;
    }
    let ghost rest = chars@.skip(from as int);
    proof {
        lemma_first_index(chars@, |c: char| !is_white(c), from as int);
        assert(trim_start(chars@) == rest);
    }
    let mut to: usize = chars.len();
    assert(rest.take(to - from) =~= rest);
    while to > from && white(chars[to - 1])
        invariant
            from <= to <= chars.len(),
            rest == chars@.skip(from as int),
            trim_end(rest) == trim_end(rest.take(to - from)),
        decreases to,
    {
        proof {
            let current = rest.take(to - from);
            assert(current.last() == chars@[to - 1]);
            assert(current.drop_last() =~= rest.take(to - from - 1));
        }
        to -= 1;
    }
    proof {
        let current = rest.take(to - from);
        if to > from {
            assert(current.last() == chars@[to - 1]);
        }
        assert(trim_end(current) == current);
        assert(current =~= chars@.subrange(from as int, to as int));
    }
    text_between(&chars, from, to)
}

/// The lines of `text`.
pub fn lines(text: &str) -> (result: Vec<String>)
    ensures
        result.deep_view() == lines_of(text@),
{
    let chars = chars_of(text);
    let mut result: Vec<String> = Vec::new();
    let mut from: usize = 0;
    assert(chars@.skip(0) =~= chars@);
    assert(result.deep_view() =~= seq![]);
    assert(result.deep_view() + lines_of(chars@) =~= lines_of(chars@));
    while from < chars.len()
        invariant
            from <= chars.len(),
            lines_of(chars@) == result.deep_view() + lines_of(chars@.skip(from as int)),
        decreases chars.len() - from,
    {
        let ghost rest = chars@.skip(from as int);
        let mut end: usize = from;
        while end < chars.len() && chars[end] != '\n'
            invariant
                from <= end <= chars.len(),
                forall|i: int| from <= i < end ==> #[trigger] chars@[i] != '\n',
            decreases chars.len() - end,
        {
            end += 1;
        }
        proof {
            assert(forall|i: int| 0 <= i < end - from ==> rest[i] == chars@[i + from]);
            assert(end < chars.len() ==> rest[end - from] == chars@[end as int]);
            lemma_first_index(rest, |c: char| c == '\n', end - from);
        }
        let ghost before_push = result.deep_view();
        if end < chars.len() {
            assert(rest.take(end - from) =~= chars@.subrange(from as int, end as int));
            assert(end > from ==> rest.take(end - from).last() == chars@[end - 1]);
            let line = if end > from && chars[end - 1] == '\r' {
                assert(rest.take(end - from).drop_last() =~= chars@.subrange(
                    from as int,
                    end - 1,
                ));
                text_between(&chars, from, end - 1)
            } else {
                text_between(&chars, from, end)
            };
            result.push(line);
            proof {
                assert(result.deep_view() =~= before_push.push(line@));
                assert(rest.skip(end - from + 1) =~= chars@.skip(end + 1));
                assert(before_push + (seq![line@] + lines_of(chars@.skip(end + 1)))
                    =~= result.deep_view() + lines_of(chars@.skip(end + 1)));
            }
            from = end + 1;
        } else {
            let line = text_between(&chars, from, end);
            result.push(line);
            proof {
                assert(line@ =~= rest);
                assert(result.deep_view() =~= before_push.push(line@));
                assert(chars@.skip(end as int).len() == 0);
                assert(before_push + seq![rest] =~= result.deep_view() + lines_of(
                    chars@.skip(end as int),
                ));
            }
            from = end;
        }
    }
    assert(chars@.skip(from as int).len() == 0);
    assert(result.deep_view() + lines_of(chars@.skip(from as int)) =~= result.deep_view());
    result
}

/// Whether `part` stands in `chars` at index `at`.
pub fn stands_at(chars: &Vec<char>, part: &Vec<char>, at: usize) -> (yes: bool)
    requires
        at <= chars.len(),
    ensures
        yes == (at + part.len() <= chars.len() && chars@.subrange(at as int, at + part.len())
            == part@),
{
    if part.len() > chars.len() - at {
        return false;
    }
    let mut i: usize = 0;
    while i < part.len()
        invariant
            i <= part.len(),
            at + part.len() <= chars.len(),
            forall|j: int| 0 <= j < i ==> #[trigger] part@[j] == chars@[at + j],
        decreases part.len() - i,
    {
        if chars[at + i] != part[i] {
            assert(chars@.subrange(at as int, at + part.len())[i as int] != part@[i as int]);
            return false;
        }
        i += 1;
    }
    assert(chars@.subrange(at as int, at + part.len()) =~= part@);
    true
}

/// Whether `text` starts with `prefix`.
pub fn starts_with(text: &str, prefix: &str) -> (yes: bool)
    ensures
        yes == prefix@.is_prefix_of(text@),
{
    let chars = chars_of(text);
    let part = chars_of(prefix);
    stands_at(&chars, &part, 0)
}

/// What follows `prefix` in `text`, when `text` starts with it.
pub fn strip_prefix(text: &str, prefix: &str) -> (rest: Option<String>)
    ensures
        match rest {
            Some(rest) => prefix@.is_prefix_of(text@) && rest@ == text@.skip(prefix@.len() as int),
            None => !prefix@.is_prefix_of(text@),
        },
{
    let chars = chars_of(text);
    let part = chars_of(prefix);
    if stands_at(&chars, &part, 0) {
        Some(text_between(&chars, part.len(), chars.len()))
    } else {
        None
    }
}

/// Whether `part` occurs in `text`.
pub fn contains(text: &str, part: &str) -> (yes: bool)
    ensures
        yes == occurs(text@, part@),
{
    let chars = chars_of(text);
    let part_chars = chars_of(part);
    let mut at: usize = 0;
    loop
        invariant
            at <= chars.len(),
            chars@ == text@,
            part_chars@ == part@,
            forall|i: int|
                0 <= i < at && i + part_chars@.len() <= chars@.len() ==> #[trigger] chars@.subrange(
                    i,
                    i + part_chars@.len(),
                ) != part_chars@,
        decreases chars.len() - at,
    {
        if stands_at(&chars, &part_chars, at) {
            return true;
        }
        if at == chars.len() {
            return false;
        }
        at += 1;
    }
}

/// The part of `text` before the first occurrence of `mark`.
pub fn text_before(text: &str, mark: &str) -> (result: String)
    ensures
        result@ == before(text@, mark@),
{
    let chars = chars_of(text);
    let part = chars_of(mark);
    let mut at: usize = 0;
    assert(chars@.skip(0) =~= chars@);
    assert(chars@.take(0) + before(chars@, part@) =~= before(chars@, part@));
    while at < chars.len()
        invariant
            at <= chars.len(),
            before(chars@, part@) == chars@.take(at as int) + before(chars@.skip(at as int), part@),
        ensures
            at <= chars.len(),
            before(chars@, part@) == chars@.take(at as int),
        decreases chars.len() - at,
    {
        let ghost rest = chars@.skip(at as int);
        let here = stands_at(&chars, &part, at);
        proof {
            if here {
                assert(rest.subrange(0, part@.len() as int) =~= chars@.subrange(
                    at as int,
                    at + part@.len(),
                ));
                assert(part@.is_prefix_of(rest));
                assert(chars@.take(at as int) + Seq::<char>::empty() =~= chars@.take(at as int));
            } else if part@.is_prefix_of(rest) {
                assert(chars@.subrange(at as int, at + part@.len()) =~= rest.subrange(
                    0,
                    part@.len() as int,
                ));
            }
        }
        if here {
            break;
        }
        at += 1;
        proof {
            assert(rest.drop_first() =~= chars@.skip(at as int));
            assert(chars@.take(at - 1) + (seq![rest[0]] + before(rest.drop_first(), part@))
                =~= chars@.take(at as int) + before(chars@.skip(at as int), part@));
            if at == chars.len() {
                assert(chars@.take(at as int) + before(chars@.skip(at as int), part@)
                    =~= chars@.take(at as int));
            }
        }
    }
    let result = text_between(&chars, 0, at);
    assert(chars@.subrange(0, at as int) =~= chars@.take(at as int));
    result
}

/// `text` with the ASCII letters in lower case.
pub fn lower(text: &str) -> (result: String)
    ensures
        result@ == lowered(text@),
{
    let chars = chars_of(text);
    let mut result = String::new();
    let mut i: usize = 0;
    assert(result@ =~= lowered(chars@).take(0));
    while i < chars.len()
        invariant
            i <= chars.len(),
            result@ == lowered(chars@).take(i as int),
        decreases chars.len() - i,
    {
        let c = chars[i];
        let low: char = if 'A' <= c && c <= 'Z' {
            (c as u8 + 32) as char
        } else {
            c
        };
        assert(low == lower_char(c));
        result.push(low);
        i += 1;
        assert(lowered(chars@).take(i as int) =~= lowered(chars@).take(i - 1).push(
            lowered(chars@)[i - 1],
        ));
    }
    assert(lowered(chars@).take(i as int) =~= lowered(chars@));
    result
}

/// Whether `a` comes before `b` in the order of texts.
pub fn comes_before(a: &str, b: &str) -> (yes: bool)
    ensures
        yes == text_less(a@, b@),
{
    let left = chars_of(a);
    let right = chars_of(b);
    let mut i: usize = 0;
    assert(left@.skip(0) =~= left@);
    assert(right@.skip(0) =~= right@);
    while i < left.len() && i < right.len() && left[i] == right[i]
        invariant
            i <= left.len(),
            i <= right.len(),
            text_less(left@, right@) == text_less(left@.skip(i as int), right@.skip(i as int)),
        decreases left.len() - i,
    {
        i += 1;
        assert(left@.skip(i - 1).drop_first() =~= left@.skip(i as int));
        assert(right@.skip(i - 1).drop_first() =~= right@.skip(i as int));
    }
    if i == right.len() {
        false
    } else if i == left.len() {
        true
    } else {
        left[i] < right[i]
    }
}

/// `n` in decimal.
pub fn number_text(n: u64) -> (text: String)
    ensures
        text@ == decimal(n as nat),
    decreases n,
{
    if n < 10 {
        let mut text = String::new();
        text.push((48u8 + n as u8) as char);
        assert(text@ =~= seq![digit_char(n as nat)]);
        text
    } else {
        let mut text = number_text(n / 10);
        text.push((48u8 + (n % 10) as u8) as char);
        text
    }
}

/// `items` one after the other, with `mark` between two of them.
pub fn join(items: &Vec<String>, mark: &str) -> (text: String)
    ensures
        text@ == joined(items.deep_view(), mark@),
{
    let mut text = String::new();
    let mut i: usize = 0;
    let ghost all = items.deep_view();
    assert(text@ =~= joined(all.take(0), mark@));
    while i < items.len()
        invariant
            i <= items.len(),
            all == items.deep_view(),
            text@ == joined(all.take(i as int), mark@),
        decreases items.len() - i,
    {
        assert(all.take(i + 1).drop_last() =~= all.take(i as int));
        if i > 0 {
            text.append(mark);
            text.append(items[i].as_str());
        } else {
            text.append(items[i].as_str());
            assert(text@ =~= all[0]);
        }
        i += 1;
    }
    assert(all.take(i as int) =~= all);
    text
}

/// No text comes before itself.
pub proof fn lemma_text_less_irreflexive(a: Seq<char>)
    ensures
        !text_less(a, a),
    decreases a.len(),
{
    if a.len() > 0 {
        lemma_text_less_irreflexive(a.drop_first());
    }
}

/// The order of texts is transitive.
pub proof fn lemma_text_less_transitive(a: Seq<char>, b: Seq<char>, c: Seq<char>)
    requires
        text_less(a, b),
        text_less(b, c),
    ensures
        text_less(a, c),
    decreases a.len(),
{
    if a.len() > 0 && b.len() > 0 && c.len() > 0 && a[0] == b[0] && b[0] == c[0] {
        lemma_text_less_transitive(a.drop_first(), b.drop_first(), c.drop_first());
    }
}

/// Of two different texts one comes before the other.
pub proof fn lemma_text_less_total(a: Seq<char>, b: Seq<char>)
    ensures
        a == b || text_less(a, b) || text_less(b, a),
    decreases a.len(),
{
    if a.len() > 0 && b.len() > 0 && a[0] == b[0] {
        lemma_text_less_total(a.drop_first(), b.drop_first());
        if a.drop_first() == b.drop_first() {
            assert(a =~= seq![a[0]] + a.drop_first());
            assert(b =~= seq![b[0]] + b.drop_first());
        }
    } else if a.len() == 0 && b.len() == 0 {
        assert(a =~= b);
    }
}

/// A number in decimal consists of digits and has the number as its value.
pub proof fn lemma_decimal(n: nat)
    ensures
        decimal(n).len() > 0,
        forall|i: int| 0 <= i < decimal(n).len() ==> is_digit(#[trigger] decimal(n)[i]),
        digits_value(decimal(n)) == n,
    decreases n,
{
    if n < 10 {
        let s = decimal(n);
        assert(s.drop_last() =~= seq![]);
        assert(digits_value(s.drop_last()) == 0);
    } else {
        lemma_decimal(n / 10);
        assert(decimal(n).drop_last() =~= decimal(n / 10));
        assert(decimal(n).last() == digit_char(n % 10));
    }
}

/// Reading a number back gives the number that was written.
pub proof fn law_number_reads_back(n: u32)
    ensures
        number_of(decimal(n as nat)) == Some(n),
{
    lemma_decimal(n as nat);
    assert(is_digit(decimal(n as nat)[0]));
}

/// Two numbers that are written alike are the same number.
pub proof fn law_decimal_is_injective(a: nat, b: nat)
    ensures
        decimal(a) == decimal(b) ==> a == b,
{
    lemma_decimal(a);
    lemma_decimal(b);
}

/// Blanks, tabs and line ends are white space; no other character that ASCII
/// can print is. Beyond ASCII it is the spaces and separators of Unicode.
pub proof fn law_white_space(c: char)
    ensures
        c == ' ' || c == '\t' || c == '\n' || c == '\r' ==> is_white(c),
        '!' <= c <= '~' ==> !is_white(c),
        c > '\u{3000}' ==> !is_white(c),
        ({
            let n = c as u32;
            is_white(c) <==> 0x9 <= n <= 0xd || n == 0x20 || n == 0x85 || n == 0xa0 || n == 0x1680
                || 0x2000 <= n <= 0x200a || 0x2028 <= n <= 0x2029 || n == 0x202f || n == 0x205f || n
                == 0x3000
        }),
{
}

/// Whether a text consists of white space.
pub open spec fn all_white(s: Seq<char>) -> bool {
    forall|i: int| 0 <= i < s.len() ==> is_white(#[trigger] s[i])
}

/// Whether a text neither starts nor ends with white space.
pub open spec fn has_tight_ends(s: Seq<char>) -> bool {
    s.len() > 0 ==> !is_white(s[0]) && !is_white(s.last())
}

proof fn lemma_trim_end_white(body: Seq<char>, back: Seq<char>)
    requires
        all_white(back),
        body.len() > 0 ==> !is_white(body.last()),
    ensures
        trim_end(body + back) == body,
    decreases back.len(),
{
    if back.len() == 0 {
        assert(body + back =~= body);
    } else {
        let shorter = back.drop_last();
        assert((body + back).last() == back[back.len() - 1]);
        assert((body + back).drop_last() =~= body + shorter);
        lemma_trim_end_white(body, shorter);
    }
}

/// Trimming takes away the white space at both ends, all of it, and nothing
/// else.
pub proof fn law_trimmed(front: Seq<char>, body: Seq<char>, back: Seq<char>)
    requires
        all_white(front),
        all_white(back),
        has_tight_ends(body),
    ensures
        trimmed(front + body + back) == body,
{
    let s = front + body + back;
    let solid = |c: char| !is_white(c);
    if body.len() == 0 {
        assert forall|i: int| 0 <= i < s.len() implies !solid(#[trigger] s[i]) by {
            if i < front.len() {
                assert(s[i] == front[i]);
            } else {
                assert(s[i] == back[i - front.len()]);
            }
        }
        lemma_first_index(s, solid, s.len() as int);
        assert(trim_start(s) =~= body);
        assert(trim_end(body) == body);
    } else {
        assert forall|i: int| 0 <= i < front.len() implies !solid(#[trigger] s[i]) by {
            assert(s[i] == front[i]);
        }
        assert(s[front.len() as int] == body[0]);
        lemma_first_index(s, solid, front.len() as int);
        assert(trim_start(s) =~= body + back);
        lemma_trim_end_white(body, back);
    }
}

/// What is left of a text after the white space at its end is taken away.
pub proof fn lemma_trim_end_parts(s: Seq<char>)
    ensures
        trim_end(s).len() <= s.len(),
        s == trim_end(s) + s.skip(trim_end(s).len() as int),
        all_white(s.skip(trim_end(s).len() as int)),
        trim_end(s).len() > 0 ==> !is_white(trim_end(s).last()),
    decreases s.len(),
{
    if s.len() > 0 && is_white(s.last()) {
        let front = s.drop_last();
        lemma_trim_end_parts(front);
        let kept = trim_end(front);
        let rest = s.skip(kept.len() as int);
        assert(kept =~= s.take(kept.len() as int)) by {
            assert(front =~= kept + front.skip(kept.len() as int));
        }
        assert(s =~= kept + rest);
        assert forall|i: int| 0 <= i < rest.len() implies is_white(#[trigger] rest[i]) by {
            if i < rest.len() - 1 {
                assert(rest[i] == front.skip(kept.len() as int)[i]);
            }
        }
    } else {
        assert(s.skip(s.len() as int) =~= seq![]);
        assert(s =~= s + s.skip(s.len() as int));
    }
}

/// A line ends at its line feed, and a carriage return right before that does
/// not belong to it. The last line needs no line feed.
pub proof fn law_lines(line: Seq<char>, rest: Seq<char>)
    requires
        !line.contains('\n'),
    ensures
        !(line.len() > 0 && line.last() == '\r') ==> lines_of(line + seq!['\n'] + rest) == seq![
            line,
        ] + lines_of(rest),
        lines_of(line + seq!['\r', '\n'] + rest) == seq![line] + lines_of(rest),
        line.len() > 0 ==> lines_of(line) == seq![line],
        lines_of(Seq::<char>::empty()) == Seq::<Seq<char>>::empty(),
{
    let feed = |c: char| c == '\n';
    assert forall|i: int| 0 <= i < line.len() implies line[i] != '\n' by {
        assert(line.contains(line[i]));
    }
    let plain = line + seq!['\n'] + rest;
    assert forall|i: int| 0 <= i < line.len() implies !feed(#[trigger] plain[i]) by {
        assert(plain[i] == line[i]);
    }
    assert(plain[line.len() as int] == '\n');
    lemma_first_index(plain, feed, line.len() as int);
    assert(plain.take(line.len() as int) =~= line);
    assert(plain.skip((line.len() + 1) as int) =~= rest);
    let both = line + seq!['\r', '\n'] + rest;
    assert forall|i: int| 0 <= i < line.len() + 1 implies !feed(#[trigger] both[i]) by {
        if i < line.len() {
            assert(both[i] == line[i]);
        } else {
            assert(both[i] == '\r');
        }
    }
    assert(both[(line.len() + 1) as int] == '\n');
    lemma_first_index(both, feed, (line.len() + 1) as int);
    assert(both.take((line.len() + 1) as int).last() == '\r');
    assert(both.take((line.len() + 1) as int).drop_last() =~= line);
    assert(both.skip((line.len() + 2) as int) =~= rest);
    assert forall|i: int| 0 <= i < line.len() implies !feed(#[trigger] line[i]) by {}
    lemma_first_index(line, feed, line.len() as int);
}

/// A text occurs exactly where another is made of something, it, and something.
pub proof fn law_occurs(s: Seq<char>, part: Seq<char>)
    ensures
        occurs(s, part) <==> exists|a: Seq<char>, b: Seq<char>| s == #[trigger] (a + part + b),
{
    if occurs(s, part) {
        let i = choose|i: int|
            0 <= i && i + part.len() <= s.len() && #[trigger] s.subrange(i, i + part.len())
                == part;
        assert(s =~= s.take(i) + part + s.skip(i + part.len()));
    }
    if exists|a: Seq<char>, b: Seq<char>| s == #[trigger] (a + part + b) {
        let (a, b) = choose|a: Seq<char>, b: Seq<char>| s == #[trigger] (a + part + b);
        assert(s.subrange(a.len() as int, (a.len() + part.len()) as int) =~= part);
    }
}

/// What stands before a mark is what stands before its first occurrence.
pub proof fn law_before(s: Seq<char>, mark: Seq<char>, i: int)
    requires
        0 <= i,
        i + mark.len() <= s.len(),
        s.subrange(i, i + mark.len()) == mark,
        forall|j: int|
            0 <= j < i && j + mark.len() <= s.len() ==> #[trigger] s.subrange(j, j + mark.len())
                != mark,
    ensures
        before(s, mark) == s.take(i),
    decreases i,
{
    if i == 0 {
        assert(s.subrange(0, mark.len() as int) == mark);
        assert(s.take(0) =~= seq![]);
    } else {
        assert(s.subrange(0int, 0int + mark.len()) != mark);
        let rest = s.drop_first();
        assert(rest.subrange(i - 1, i - 1 + mark.len()) =~= s.subrange(i, i + mark.len()));
        assert forall|j: int|
            0 <= j < i - 1 && j + mark.len() <= rest.len() implies #[trigger] rest.subrange(
            j,
            j + mark.len(),
        ) != mark by {
            assert(rest.subrange(j, j + mark.len()) =~= s.subrange(j + 1, j + 1 + mark.len()));
        }
        law_before(rest, mark, i - 1);
        assert(seq![s[0]] + rest.take(i - 1) =~= s.take(i));
    }
}

/// Without the mark, all of the text stands before it.
pub proof fn law_before_no_mark(s: Seq<char>, mark: Seq<char>)
    requires
        !occurs(s, mark),
    ensures
        before(s, mark) == s,
    decreases s.len(),
{
    if s.len() > 0 {
        let rest = s.drop_first();
        if mark.is_prefix_of(s) {
            assert(s.subrange(0int, 0int + mark.len()) == mark);
        }
        if occurs(rest, mark) {
            let i = choose|i: int|
                0 <= i && i + mark.len() <= rest.len() && #[trigger] rest.subrange(
                    i,
                    i + mark.len(),
                ) == mark;
            assert(s.subrange(i + 1, i + 1 + mark.len()) =~= mark);
        }
        law_before_no_mark(rest, mark);
        assert(seq![s[0]] + rest =~= s);
    }
}

/// Lower case changes the capital letters of ASCII and nothing else, each to the
/// letter that stands 32 places on.
pub proof fn law_lowered(s: Seq<char>, i: int)
    requires
        0 <= i < s.len(),
    ensures
        lowered(s).len() == s.len(),
        'A' <= s[i] <= 'Z' ==> lowered(s)[i] as u32 == s[i] as u32 + 32,
        !('A' <= s[i] <= 'Z') ==> lowered(s)[i] == s[i],
{
}

/// Whether two texts agree up to `k`, where the first ends or has the smaller
/// character.
pub open spec fn less_at(a: Seq<char>, b: Seq<char>, k: int) -> bool {
    &&& 0 <= k <= a.len()
    &&& k < b.len()
    &&& a.take(k) == b.take(k)
    &&& k == a.len() || a[k] < b[k]
}

/// One text comes before another exactly when they agree up to some place where
/// it ends or has the smaller character.
pub proof fn law_text_order(a: Seq<char>, b: Seq<char>)
    ensures
        text_less(a, b) <==> exists|k: int| less_at(a, b, k),
    decreases a.len(),
{
    if a.len() > 0 && b.len() > 0 && a[0] == b[0] {
        let x = a.drop_first();
        let y = b.drop_first();
        law_text_order(x, y);
        if text_less(x, y) {
            let k = choose|k: int| less_at(x, y, k);
            assert(a.take(k + 1) =~= seq![a[0]] + x.take(k));
            assert(b.take(k + 1) =~= seq![b[0]] + y.take(k));
            assert(less_at(a, b, k + 1));
        }
        if exists|k: int| less_at(a, b, k) {
            let k = choose|k: int| less_at(a, b, k);
            assert(k > 0);
            assert(x.take(k - 1) =~= a.take(k).drop_first());
            assert(y.take(k - 1) =~= b.take(k).drop_first());
            assert(less_at(x, y, k - 1));
        }
    } else {
        if text_less(a, b) {
            assert(a.take(0) =~= b.take(0));
            assert(less_at(a, b, 0));
        }
        if exists|k: int| less_at(a, b, k) {
            let k = choose|k: int| less_at(a, b, k);
            if k > 0 {
                assert(a.take(k)[0] == b.take(k)[0]);
            }
        }
    }
}

/// A number of one digit is that digit, and ten times a number with a digit
/// added is the number with the digit behind it.
pub proof fn law_decimal_digits(n: nat, d: nat)
    requires
        d < 10,
    ensures
        decimal(d).len() == 1,
        decimal(d)[0] as u32 == '0' as u32 + d,
        n > 0 ==> decimal(10 * n + d) == decimal(n) + decimal(d),
{
    if n > 0 {
        assert((10 * n + d) / 10 == n);
        assert((10 * n + d) % 10 == d);
        assert(decimal(10 * n + d) =~= decimal(n) + decimal(d));
    }
}

/// A negative number is written with a minus sign, another one without a sign.
pub proof fn law_signed_decimal(n: nat)
    ensures
        signed_decimal(n as int) == decimal(n),
        n > 0 ==> signed_decimal(-n) == seq!['-'] + decimal(n),
{
}

proof fn lemma_leading_zero(s: Seq<char>)
    ensures
        digits_value(seq!['0'] + s) == digits_value(s),
    decreases s.len(),
{
    let t = seq!['0'] + s;
    if s.len() == 0 {
        assert(t.drop_last() =~= seq![]);
        assert(digits_value(t.drop_last()) == 0);
        assert(t.last() == '0');
    } else {
        assert(t.drop_last() =~= seq!['0'] + s.drop_last());
        assert(t.last() == s.last());
        lemma_leading_zero(s.drop_last());
    }
}

/// A plus sign or a zero ahead of digits does not change the number.
pub proof fn law_number_signs(digits: Seq<char>)
    requires
        digits.len() > 0,
        forall|k: int| 0 <= k < digits.len() ==> '0' <= #[trigger] digits[k] <= '9',
    ensures
        number_of(seq!['+'] + digits) == number_of(digits),
        number_of(seq!['0'] + digits) == number_of(digits),
{
    assert((seq!['+'] + digits).drop_first() =~= digits);
    assert(without_plus(digits) == digits);
    let zero = seq!['0'] + digits;
    assert(without_plus(zero) == zero);
    lemma_leading_zero(digits);
    assert forall|k: int| 0 <= k < digits.len() implies is_digit(#[trigger] digits[k]) by {}
    assert forall|k: int| 0 <= k < zero.len() implies is_digit(#[trigger] zero[k]) by {
        if k > 0 {
            assert(zero[k] == digits[k - 1]);
        }
    }
}

/// What holds anything but digits behind an optional plus sign is no number,
/// and neither is nothing.
pub proof fn law_other_text_is_no_number(s: Seq<char>, i: int)
    requires
        0 <= i < s.len(),
        !('0' <= s[i] <= '9'),
        !(i == 0 && s[0] == '+'),
    ensures
        number_of(s) is None,
        number_of(Seq::<char>::empty()) is None,
        number_of(seq!['+']) is None,
{
    let rest = without_plus(s);
    if s[0] == '+' {
        assert(rest[i - 1] == s[i]);
        assert(!is_digit(rest[i - 1]));
    } else {
        assert(rest[i] == s[i]);
        assert(!is_digit(rest[i]));
    }
    assert(seq!['+'].drop_first() =~= seq![]);
}

/// A number that needs more than 32 bits is refused.
pub proof fn law_large_numbers_are_refused(n: nat)
    requires
        n > u32::MAX,
    ensures
        number_of(decimal(n)) is None,
{
    lemma_decimal(n);
    assert(is_digit(decimal(n)[0]));
}

/// Joining puts the mark between what was joined and what is added.
pub proof fn law_joined(items: Seq<Seq<char>>, item: Seq<char>, mark: Seq<char>)
    ensures
        joined(Seq::<Seq<char>>::empty(), mark) == Seq::<char>::empty(),
        joined(seq![item], mark) == item,
        items.len() > 0 ==> joined(items.push(item), mark) == joined(items, mark) + mark + item,
{
    assert(items.push(item).drop_last() =~= items);
}

/// A text with more than white space in it keeps it when it is trimmed.
pub proof fn law_trimming_keeps_text(s: Seq<char>)
    requires
        !all_white(s),
    ensures
        trimmed(s).len() > 0,
{
    let i = choose|i: int| 0 <= i < s.len() && !is_white(#[trigger] s[i]);
    let start = lemma_first_text(s, i);
    let end = lemma_last_text(s, i);
    let body = s.subrange(start, end + 1);
    assert(body[0] == s[start]);
    assert(body.last() == s[end]);
    assert(s =~= s.take(start) + body + s.skip(end + 1));
    law_trimmed(s.take(start), body, s.skip(end + 1));
}

proof fn lemma_first_text(s: Seq<char>, i: int) -> (start: int)
    requires
        0 <= i < s.len(),
        !is_white(s[i]),
    ensures
        0 <= start <= i,
        !is_white(s[start]),
        all_white(s.take(start)),
    decreases i,
{
    if exists|j: int| 0 <= j < i && !is_white(#[trigger] s[j]) {
        let j = choose|j: int| 0 <= j < i && !is_white(#[trigger] s[j]);
        lemma_first_text(s, j)
    } else {
        i
    }
}

proof fn lemma_last_text(s: Seq<char>, i: int) -> (end: int)
    requires
        0 <= i < s.len(),
        !is_white(s[i]),
    ensures
        i <= end < s.len(),
        !is_white(s[end]),
        all_white(s.skip(end + 1)),
    decreases s.len() - i,
{
    if exists|j: int| i < j < s.len() && !is_white(#[trigger] s[j]) {
        let j = choose|j: int| i < j < s.len() && !is_white(#[trigger] s[j]);
        lemma_last_text(s, j)
    } else {
        i
    }
}

} // verus!
