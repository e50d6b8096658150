//! Text primitives: character classes, splitting, trimming, joining and
//! decimal numerals, with strings modelled as sequences of characters.

use vstd::prelude::*;
use vstd::string::*;

verus! {

// ---------------------------------------------------------------------------
// Character classes
// ---------------------------------------------------------------------------

/// A seven-bit character.
pub open spec fn ascii_char(c: char) -> bool {
    (c as int) < 128
}

/// One of `0` to `9`.
pub open spec fn ascii_digit(c: char) -> bool {
    48 <= (c as int) <= 57
}

/// One of `A` to `Z`.
pub open spec fn ascii_upper(c: char) -> bool {
    65 <= (c as int) <= 90
}

/// One of `a` to `z`.
pub open spec fn ascii_lower(c: char) -> bool {
    97 <= (c as int) <= 122
}

/// An ASCII letter or digit.
pub open spec fn ascii_alphanumeric(c: char) -> bool {
    ascii_digit(c) || ascii_upper(c) || ascii_lower(c)
}

/// An ASCII character with the Unicode `White_Space` property: tab, line
/// feed, vertical tab, form feed, carriage return or space.
pub open spec fn ascii_space(c: char) -> bool {
    9 <= (c as int) <= 13 || (c as int) == 32
}

/// The lowercase form of an ASCII letter; any other character unchanged.
pub open spec fn ascii_folded(c: char) -> char {
    if ascii_upper(c) {
        ((c as int) + 32) as char
    } else {
        c
    }
}

/// Every character of `s` is seven-bit.
pub open spec fn ascii_text(s: Seq<char>) -> bool {
    forall|i: int| 0 <= i < s.len() ==> ascii_char(#[trigger] s[i])
}

/// Every character of `s` is an ASCII digit.
pub open spec fn ascii_digits(s: Seq<char>) -> bool {
    forall|i: int| 0 <= i < s.len() ==> ascii_digit(#[trigger] s[i])
}

/// Whether a character is alphanumeric by the Unicode tables behind
/// `char::is_alphanumeric`.
pub uninterp spec fn unicode_alphanumeric(c: char) -> bool;

/// Whether a character is white space by the Unicode tables behind
/// `char::is_whitespace`.
pub uninterp spec fn unicode_space(c: char) -> bool;

/// Whether a character is lowercase by the Unicode tables behind
/// `char::is_lowercase`.
pub uninterp spec fn unicode_lowercase_char(c: char) -> bool;

/// The lowercase mapping of one character by `char::to_lowercase`.
pub uninterp spec fn unicode_lower_mapping(c: char) -> Seq<char>;

/// The lowercase form of a text by `str::to_lowercase`.
pub uninterp spec fn unicode_lowercase(s: Seq<char>) -> Seq<char>;

/// A letter or digit of any script.
pub open spec fn alphanumeric(c: char) -> bool {
    if ascii_char(c) {
        ascii_alphanumeric(c)
    } else {
        unicode_alphanumeric(c)
    }
}

/// White space of any script.
pub open spec fn space(c: char) -> bool {
    if ascii_char(c) {
        ascii_space(c)
    } else {
        unicode_space(c)
    }
}

/// A lowercase letter of any script.
pub open spec fn lowercase_char(c: char) -> bool {
    if ascii_char(c) {
        ascii_lower(c)
    } else {
        unicode_lowercase_char(c)
    }
}

/// The characters that one character becomes in lowercase.
pub open spec fn lower_mapping(c: char) -> Seq<char> {
    if ascii_char(c) {
        seq![ascii_folded(c)]
    } else {
        unicode_lower_mapping(c)
    }
}

/// Every character of an ASCII text in lowercase.
pub open spec fn ascii_lowercase(s: Seq<char>) -> Seq<char> {
    s.map_values(|c: char| ascii_folded(c))
}

/// A text in lowercase.
pub open spec fn lowercase(s: Seq<char>) -> Seq<char> {
    if ascii_text(s) {
        ascii_lowercase(s)
    } else {
        unicode_lowercase(s)
    }
}

/// `char::is_alphanumeric`: a letter or digit by the Unicode tables, which
/// among the ASCII characters are exactly `A-Z`, `a-z` and `0-9`.
pub assume_specification[ char::is_alphanumeric ](c: char) -> (b: bool)
    ensures
        b == (if ascii_char(c) {
            ascii_alphanumeric(c)
        } else {
            unicode_alphanumeric(c)
        }),
;

/// `char::is_whitespace`: the `White_Space` property, which among the ASCII
/// characters holds of the space and of `\t`, `\n`, `\x0B`, `\x0C`, `\r`.
pub assume_specification[ char::is_whitespace ](c: char) -> (b: bool)
    ensures
        b == (if ascii_char(c) {
            ascii_space(c)
        } else {
            unicode_space(c)
        }),
;

/// `char::is_lowercase`: the `Lowercase` property, which among the ASCII
/// characters holds of `a-z` alone.
pub assume_specification[ char::is_lowercase ](c: char) -> (b: bool)
    ensures
        b == (if ascii_char(c) {
            ascii_lower(c)
        } else {
            unicode_lowercase_char(c)
        }),
;

/// `String::push`: appends one character.
pub assume_specification[ String::push ](text: &mut String, c: char)
    ensures
        final(text)@ == old(text)@.push(c),
;

/// `char::to_lowercase`, collected: the lowercase mapping of `c`, which for an
/// ASCII character is its ASCII folding.
#[verifier::external_body]
pub(crate) fn char_to_lowercase(c: char) -> (r: String)
    ensures
        r@ == (if ascii_char(c) {
            seq![ascii_folded(c)]
        } else {
            unicode_lower_mapping(c)
        }),
{
    c.to_lowercase().collect()
}

/// `str::to_lowercase`: the lowercase form of `s`. An ASCII text is folded
/// character by character, and no text loses all of its characters.
#[verifier::external_body]
pub(crate) fn str_to_lowercase(s: &str) -> (r: String)
    ensures
        r@ == (if ascii_text(s@) {
            ascii_lowercase(s@)
        } else {
            unicode_lowercase(s@)
        }),
        s@.len() > 0 ==> r@.len() > 0,
{
    s.to_lowercase()
}

/// Whether two texts have the same characters.
pub fn same_text(a: &str, b: &str) -> (r: bool)
    ensures
        r == (a@ == b@),
{
    a.to_owned() == b.to_owned()
}

/// Whether `c` is seven-bit.
pub fn is_ascii_char(c: char) -> (b: bool)
    ensures
        b == ascii_char(c),
{
    (c as u32) < 128
}

/// Whether `c` is one of `0` to `9`.
pub fn is_ascii_digit(c: char) -> (b: bool)
    ensures
        b == ascii_digit(c),
{
    48 <= (c as u32) && (c as u32) <= 57
}

// ---------------------------------------------------------------------------
// Strings and character vectors
// ---------------------------------------------------------------------------

/// The characters of `s`, in order.
pub fn chars_of(s: &str) -> (r: Vec<char>)
    ensures
        r@ == s@,
{
    let mut out: Vec<char> = Vec::new();
    for c in it: s.chars()
        invariant
            it.seq() == s@,
            out@ == s@.take(it.index() as int),
    {
        proof {
            assert(s@.take(it.index() as int).push(c) =~= s@.take(it.index() + 1));
        }
        out.push(c);
    }
    proof {
        assert(s@.take(s@.len() as int) =~= s@);
    }
    out
}

/// The characters `from` to `to` of `chars`, as a string.
pub fn text_between(chars: &Vec<char>, from: usize, to: usize) -> (r: String)
    requires
        from <= to <= chars@.len(),
    ensures
        r@ == chars@.subrange(from as int, to as int),
{
    let mut out: String = String::new();
    let mut i: usize = from;
    while i < to
        invariant
            from <= i <= to <= chars@.len(),
            out@ == chars@.subrange(from as int, i as int),
        decreases to - i,
    {
        out.push(chars[i]);
        i += 1;
        proof {
            assert(chars@.subrange(from as int, i as int) =~= chars@.subrange(
                from as int,
                i - 1,
            ).push(chars@[i - 1]));
        }
    }
    out
}

/// Where the last `c` of a text stands.
pub open spec fn last_at(s: Seq<char>, c: char) -> Option<nat>
    decreases s.len(),
{
    if s.len() == 0 {
        None
    } else if s.last() == c {
        Some((s.len() - 1) as nat)
    } else {
        last_at(s.drop_last(), c)
    }
}

/// Where the last `c` of `chars` stands.
pub fn find_last(chars: &Vec<char>, c: char) -> (r: Option<usize>)
    ensures
        last_at(chars@, c) == (match r {
            Some(at) => Some(at as nat),
            None => None::<nat>,
        }),
        r matches Some(at) ==> at < chars@.len() && chars@[at as int] == c,
{
    let mut at: usize = chars.len();
    proof {
        assert(chars@.take(at as int) =~= chars@);
    }
    while at > 0
        invariant
            at <= chars@.len(),
            last_at(chars@.take(at as int), c) == last_at(chars@, c),
        decreases at,
    {
        proof {
            assert(chars@.take(at as int).drop_last() =~= chars@.take(at - 1));
        }
        if chars[at - 1] == c {
            return Some(at - 1);
        }
        at -= 1;
    }
    None
}

// ---------------------------------------------------------------------------
// Decimal numerals
// ---------------------------------------------------------------------------

/// The value of an ASCII digit.
pub open spec fn digit_value(c: char) -> nat {
    ((c as int) - 48) as nat
}

/// The value of a decimal numeral.
pub open spec fn decimal_value(s: Seq<char>) -> nat
    decreases s.len(),
{
    if s.len() == 0 {
        0
    } else {
        decimal_value(s.drop_last()) * 10 + digit_value(s.last())
    }
}

/// A numeral of at most three digits is below one thousand.
pub proof fn lemma_short_decimal(s: Seq<char>)
    requires
        ascii_digits(s),
        s.len() <= 3,
    ensures
        decimal_value(s) < 1000,
        s.len() <= 2 ==> decimal_value(s) < 100,
        s.len() <= 1 ==> decimal_value(s) < 10,
        s.len() == 0 ==> decimal_value(s) == 0,
    decreases s.len(),
{
    if s.len() > 0 {
        assert(ascii_digit(s[s.len() - 1]));
        lemma_short_decimal(s.drop_last());
    }
}

/// The value of the numeral of at most three digits that stands in `chars`
/// from `from` to `to`, or `None` where no such numeral stands there.
pub fn parse_short_decimal(chars: &Vec<char>, from: usize, to: usize) -> (r: Option<u32>)
    requires
        from <= to <= chars@.len(),
    ensures
        r == short_decimal(chars@.subrange(from as int, to as int)),
{
    let ghost s = chars@.subrange(from as int, to as int);
    if from == to || to - from > 3 {
        return None;
    }
    let mut value: u32 = 0;
    let mut i: usize = from;
    proof {
        assert(s.take(0) =~= Seq::empty());
    }
    while i < to
        invariant
            from <= i <= to <= chars@.len(),
            to - from <= 3,
            s == chars@.subrange(from as int, to as int),
            ascii_digits(s.take(i - from)),
            value == decimal_value(s.take(i - from)),
        decreases to - i,
    {
        let c: char = chars[i];
        proof {
            assert(s[i - from] == c);
            assert(s.take(i - from + 1).drop_last() =~= s.take(i - from));
        }
        if !is_ascii_digit(c) {
            return None;
        }
        proof {
            lemma_short_decimal(s.take(i - from));
            assert(ascii_digits(s.take(i - from + 1)));
            lemma_short_decimal(s.take(i - from + 1));
        }
        value = value * 10 + ((c as u32) - 48);
        i += 1;
    }
    proof {
        assert(s.take(i - from) =~= s);
        lemma_short_decimal(s);
    }
    Some(value)
}

/// The value of a numeral of one to three digits.
pub open spec fn short_decimal(s: Seq<char>) -> Option<u32> {
    if 1 <= s.len() <= 3 && ascii_digits(s) {
        Some(decimal_value(s) as u32)
    } else {
        None
    }
}

// ---------------------------------------------------------------------------
// Finding one text in another
// ---------------------------------------------------------------------------

/// `needle` stands in `s` at position `at`.
pub open spec fn stands_at(s: Seq<char>, needle: Seq<char>, at: int) -> bool {
    0 <= at && at + needle.len() <= s.len() && s.subrange(at, at + needle.len()) == needle
}

/// `needle` stands somewhere in `s`.
pub open spec fn holds_text(s: Seq<char>, needle: Seq<char>) -> bool {
    exists|at: int| #[trigger] stands_at(s, needle, at)
}

/// The first position at or after `from` where `needle` stands in `s`.
pub open spec fn first_from(s: Seq<char>, needle: Seq<char>, from: int) -> Option<int>
    decreases s.len() + 1 - from,
{
    if from < 0 || from + needle.len() > s.len() {
        None
    } else if stands_at(s, needle, from) {
        Some(from)
    } else {
        first_from(s, needle, from + 1)
    }
}

/// Whether `needle` stands in `chars` at position `at`.
pub fn is_at(chars: &Vec<char>, needle: &Vec<char>, at: usize) -> (r: bool)
    ensures
        r == stands_at(chars@, needle@, at as int),
{
    if needle.len() > chars.len() || at > chars.len() - needle.len() {
        return false;
    }
    let mut k: usize = 0;
    while k < needle.len()
        invariant
            k <= needle@.len(),
            at + needle@.len() <= chars.len(),
            forall|j: int| 0 <= j < k ==> chars@[at + j] == needle@[j],
        decreases needle@.len() - k,
    {
        if chars[at + k] != needle[k] {
            proof {
                assert(chars@.subrange(at as int, at + needle@.len())[k as int] != needle@[k as int]);
            }
            return false;
        }
        k += 1;
    }
    proof {
        assert(chars@.subrange(at as int, at + needle@.len()) =~= needle@);
    }
    true
}

/// Whether `needle` stands somewhere in `s`.
pub fn text_holds(s: &str, needle: &str) -> (r: bool)
    ensures
        r == holds_text(s@, needle@),
{
    let chars: Vec<char> = chars_of(s);
    let wanted: Vec<char> = chars_of(needle);
    if wanted.len() > chars.len() {
        return false;
    }
    let mut at: usize = 0;
    while at <= chars.len() - wanted.len()
        invariant
            wanted@.len() <= chars@.len(),
            chars@ == s@,
            wanted@ == needle@,
            at <= chars@.len() - wanted@.len() + 1,
            forall|k: int| 0 <= k < at ==> !#[trigger] stands_at(s@, needle@, k),
        decreases chars@.len() + 1 - at,
    {
        if is_at(&chars, &wanted, at) {
            return true;
        }
        if at == chars.len() - wanted.len() {
            proof {
                assert forall|k: int| !#[trigger] stands_at(s@, needle@, k) by {}
            }
            return false;
        }
        at += 1;
    }
    false
}

/// The first position where `needle` stands in `chars`.
pub fn find_first(chars: &Vec<char>, needle: &Vec<char>) -> (r: Option<usize>)
    ensures
        first_from(chars@, needle@, 0) == (match r {
            Some(at) => Some(at as int),
            None => None::<int>,
        }),
        r matches Some(at) ==> stands_at(chars@, needle@, at as int),
{
    if needle.len() > chars.len() {
        return None;
    }
    let last: usize = chars.len() - needle.len();
    let mut at: usize = 0;
    while at <= last
        invariant
            needle@.len() <= chars@.len(),
            last == chars@.len() - needle@.len(),
            at <= last + 1,
            first_from(chars@, needle@, at as int) == first_from(chars@, needle@, 0),
        decreases last + 1 - at,
    {
        if is_at(chars, needle, at) {
            return Some(at);
        }
        if at == last {
            proof {
                assert(first_from(chars@, needle@, at + 1) is None);
            }
            return None;
        }
        at += 1;
    }
    None
}

/// The same text, ASCII letter case aside.
pub open spec fn same_but_case(a: Seq<char>, b: Seq<char>) -> bool {
    ascii_lowercase(a) == ascii_lowercase(b)
}

/// Whether two characters are the same, ASCII letter case aside.
fn same_letter(a: char, b: char) -> (r: bool)
    ensures
        r == (ascii_folded(a) == ascii_folded(b)),
{
    let x: u32 = a as u32;
    let y: u32 = b as u32;
    let x_low: u32 = if 65 <= x && x <= 90 {
        x + 32
    } else {
        x
    };
    let y_low: u32 = if 65 <= y && y <= 90 {
        y + 32
    } else {
        y
    };
    x_low == y_low
}

/// Whether two texts are the same, ASCII letter case aside.
pub fn eq_ignoring_case(a: &str, b: &str) -> (r: bool)
    ensures
        r == same_but_case(a@, b@),
{
    let x: Vec<char> = chars_of(a);
    let y: Vec<char> = chars_of(b);
    if x.len() != y.len() {
        proof {
            assert(ascii_lowercase(a@).len() != ascii_lowercase(b@).len());
        }
        return false;
    }
    let mut i: usize = 0;
    while i < x.len()
        invariant
            i <= x@.len(),
            x@.len() == y@.len(),
            x@ == a@,
            y@ == b@,
            forall|k: int|
                0 <= k < i ==> #[trigger] ascii_lowercase(a@)[k] == ascii_lowercase(b@)[k],
        decreases x@.len() - i,
    {
        proof {
            assert(ascii_lowercase(a@)[i as int] == ascii_folded(x@[i as int]));
            assert(ascii_lowercase(b@)[i as int] == ascii_folded(y@[i as int]));
        }
        if !same_letter(x[i], y[i]) {
            return false;
        }
        i += 1;
    }
    proof {
        assert(ascii_lowercase(a@) =~= ascii_lowercase(b@));
    }
    true
}

/// A number in decimal digits.
pub open spec fn decimal(n: nat) -> Seq<char>
    decreases n,
{
    if n < 10 {
        seq![(n + 48) as char]
    } else {
        decimal(n / 10).push((n % 10 + 48) as char)
    }
}

/// The digit for a number below ten.
fn digit_char(n: u64) -> (r: char)
    requires
        n < 10,
    ensures
        r == (n + 48) as char,
{
    (n as u8 + 48) as char
}

/// Appends a number in decimal digits.
pub fn push_number(out: &mut String, n: u64)
    ensures
        final(out)@ == old(out)@ + decimal(n as nat),
    decreases n,
{
    if n < 10 {
        let c: char = digit_char(n);
        proof {
            assert(out@ + seq![c] =~= out@.push(c));
        }
        out.push(c);
    } else {
        let ghost start = out@;
        push_number(out, n / 10);
        let c: char = digit_char(n % 10);
        out.push(c);
        proof {
            assert(start + decimal((n / 10) as nat).push(c) =~= (start + decimal(
                (n / 10) as nat,
            )).push(c));
        }
    }
}

// ---------------------------------------------------------------------------
// Laws
// ---------------------------------------------------------------------------

/// The last occurrence of a character is one, and none follows it; where none
/// is found there is none.
pub proof fn law_last_occurrence(s: Seq<char>, c: char)
    ensures
        last_at(s, c) matches Some(at) ==> at < s.len() && s[at as int] == c && forall|j: int|
            at < j < s.len() ==> #[trigger] s[j] != c,
        last_at(s, c) is None <==> !s.contains(c),
    decreases s.len(),
{
    if s.len() > 0 {
        let front = s.drop_last();
        law_last_occurrence(front, c);
        if s.last() != c {
            if s.contains(c) {
                let k = choose|k: int| 0 <= k < s.len() && s[k] == c;
                assert(front[k] == c);
                assert(front.contains(c));
            }
            if front.contains(c) {
                let k = choose|k: int| 0 <= k < front.len() && front[k] == c;
                assert(s[k] == c);
            }
            if last_at(s, c) is Some {
                let at = last_at(s, c)->Some_0;
                assert forall|j: int| at < j < s.len() implies #[trigger] s[j] != c by {
                    if j < front.len() {
                        assert(front[j] != c);
                    }
                }
                assert(front[at as int] == c);
            }
        } else {
            assert(s[s.len() - 1] == c);
        }
    }
}

/// Writing a number out and reading it gives the number back: the numeral
/// holds digits only, and no zero stands in front of another digit.
pub proof fn law_numerals_are_read_back(n: nat)
    ensures
        decimal_value(decimal(n)) == n,
        decimal(n).len() >= 1,
        forall|i: int| 0 <= i < decimal(n).len() ==> '0' <= #[trigger] decimal(n)[i] <= '9',
        n > 0 ==> decimal(n)[0] != '0',
        n < 10 ==> decimal(n).len() == 1,
    decreases n,
{
    if n >= 10 {
        law_numerals_are_read_back(n / 10);
        let front = decimal(n / 10);
        let c = (n % 10 + 48) as char;
        assert(decimal(n) == front.push(c));
        assert(front.push(c).drop_last() =~= front);
        assert(c as int == n % 10 + 48);
        assert(decimal_value(decimal(n)) == decimal_value(front) * 10 + digit_value(c));
        assert forall|i: int| 0 <= i < decimal(n).len() implies '0' <= #[trigger] decimal(n)[i]
            <= '9' by {
            if i < front.len() {
                assert(decimal(n)[i] == front[i]);
            }
        }
    } else {
        let c = (n + 48) as char;
        assert(c as int == n + 48);
        assert(decimal(n) == seq![c]);
        assert(seq![c].drop_last() =~= Seq::<char>::empty());
        assert(decimal_value(Seq::<char>::empty()) == 0);
        assert(decimal_value(seq![c]) == digit_value(c));
    }
}

/// A short numeral has one to three digits and nothing else, and each digit
/// counts by its place.
pub proof fn law_short_numerals(s: Seq<char>)
    ensures
        short_decimal(s) is Some <==> 1 <= s.len() <= 3 && forall|i: int|
            0 <= i < s.len() ==> '0' <= #[trigger] s[i] <= '9',
        short_decimal(s) is Some && s.len() == 1 ==> short_decimal(s)->Some_0 == s[0] as int - 48,
        short_decimal(s) is Some && s.len() == 2 ==> short_decimal(s)->Some_0 == 10 * (s[0] as int
            - 48) + (s[1] as int - 48),
        short_decimal(s) is Some && s.len() == 3 ==> short_decimal(s)->Some_0 == 100 * (s[0] as int
            - 48) + 10 * (s[1] as int - 48) + (s[2] as int - 48),
{
    reveal_with_fuel(decimal_value, 4);
    if short_decimal(s) is Some {
        assert(forall|i: int| 0 <= i < s.len() ==> ascii_digit(#[trigger] s[i]));
        lemma_short_decimal(s);
        if s.len() == 1 {
            assert(ascii_digit(s[0]));
        } else if s.len() == 2 {
            assert(ascii_digit(s[0]) && ascii_digit(s[1]));
            assert(s.drop_last().last() == s[0]);
        } else {
            assert(ascii_digit(s[0]) && ascii_digit(s[1]) && ascii_digit(s[2]));
            assert(s.drop_last().last() == s[1]);
            assert(s.drop_last().drop_last().last() == s[0]);
        }
    }
}

/// A text holds another exactly when it is that text with something, or
/// nothing, before and behind it.
pub proof fn law_texts_are_held_anywhere(s: Seq<char>, needle: Seq<char>)
    ensures
        holds_text(s, needle) <==> exists|front: Seq<char>, back: Seq<char>|
            s == #[trigger] (front + needle + back),
{
    if holds_text(s, needle) {
        let at = choose|at: int| #[trigger] stands_at(s, needle, at);
        let front = s.take(at);
        let back = s.skip(at + needle.len());
        assert(s =~= front + needle + back) by {
            assert forall|i: int| 0 <= i < s.len() implies s[i] == (front + needle + back)[i] by {
                if at <= i < at + needle.len() {
                    assert(s.subrange(at, at + needle.len())[i - at] == needle[i - at]);
                }
            }
        }
    }
    if exists|front: Seq<char>, back: Seq<char>| s == #[trigger] (front + needle + back) {
        let (front, back) = choose|front: Seq<char>, back: Seq<char>|
            s == #[trigger] (front + needle + back);
        assert(s.subrange(front.len() as int, (front.len() + needle.len()) as int) =~= needle);
        assert(stands_at(s, needle, front.len() as int));
    }
}

/// Looking for a text from a position on finds its first occurrence there, if
/// there is one.
pub proof fn law_first_occurrence(s: Seq<char>, needle: Seq<char>, from: int)
    requires
        0 <= from,
    ensures
        first_from(s, needle, from) matches Some(at) ==> from <= at && stands_at(s, needle, at)
            && forall|k: int| from <= k < at ==> !#[trigger] stands_at(s, needle, k),
        first_from(s, needle, from) is None ==> forall|k: int|
            from <= k ==> !#[trigger] stands_at(s, needle, k),
    decreases s.len() + 1 - from,
{
    if from + needle.len() <= s.len() && !stands_at(s, needle, from) {
        law_first_occurrence(s, needle, from + 1);
    }
}

/// Two characters are the same letter, or the same character.
pub open spec fn one_letter(a: char, b: char) -> bool {
    a == b || ('A' <= a <= 'Z' && b as int == a as int + 32) || ('A' <= b <= 'Z' && a as int
        == b as int + 32)
}

/// Texts are the same but for case when they are as long as each other and
/// have the same letters in the same places; in any other character they do
/// not differ.
pub proof fn law_only_letter_case_is_ignored(a: Seq<char>, b: Seq<char>)
    ensures
        same_but_case(a, b) <==> a.len() == b.len() && forall|i: int|
            0 <= i < a.len() ==> one_letter(#[trigger] a[i], b[i]),
{
    assert forall|i: int| 0 <= i < a.len() && i < b.len() implies (ascii_folded(#[trigger] a[i])
        == ascii_folded(b[i])) == one_letter(a[i], b[i]) by {}
    if same_but_case(a, b) {
        assert(ascii_lowercase(a).len() == a.len());
        assert(ascii_lowercase(b).len() == b.len());
        assert forall|i: int| 0 <= i < a.len() implies one_letter(#[trigger] a[i], b[i]) by {
            assert(ascii_lowercase(a)[i] == ascii_lowercase(b)[i]);
            assert(ascii_folded(a[i]) == ascii_folded(b[i]));
        }
    }
    if a.len() == b.len() && forall|i: int|
        0 <= i < a.len() ==> one_letter(#[trigger] a[i], b[i]) {
        assert forall|i: int| 0 <= i < a.len() implies ascii_lowercase(a)[i] == ascii_lowercase(
            b,
        )[i] by {
            assert(one_letter(a[i], b[i]));
            assert(ascii_folded(a[i]) == ascii_folded(b[i]));
        }
        assert(ascii_lowercase(a) =~= ascii_lowercase(b));
    }
}

/// In lowercase an ASCII text has a small letter for every capital, and its
/// other characters stay.
pub proof fn law_capitals_become_small(s: Seq<char>)
    requires
        forall|i: int| 0 <= i < s.len() ==> (#[trigger] s[i]) as int <= 127,
    ensures
        lowercase(s).len() == s.len(),
        forall|i: int|
            0 <= i < s.len() ==> (#[trigger] lowercase(s)[i]) as int == (if 'A' <= s[i] <= 'Z' {
                s[i] as int + 32
            } else {
                s[i] as int
            }),
        forall|i: int| 0 <= i < s.len() ==> one_letter(#[trigger] lowercase(s)[i], s[i]),
{
    assert(ascii_text(s)) by {
        assert forall|i: int| 0 <= i < s.len() implies ascii_char(#[trigger] s[i]) by {}
    }
}

/// ASCII letters and digits are alphanumeric and nothing else of ASCII is; of
/// the ASCII characters the space and the five control characters from the
/// tab to the carriage return are white space.
pub proof fn law_ascii_classes(c: char)
    requires
        c as int <= 127,
    ensures
        alphanumeric(c) <==> 'a' <= c <= 'z' || 'A' <= c <= 'Z' || '0' <= c <= '9',
        space(c) <==> c == ' ' || 9 <= c as int <= 13,
        lowercase_char(c) <==> 'a' <= c <= 'z',
        lower_mapping(c).len() == 1,
        lower_mapping(c)[0] as int == (if 'A' <= c <= 'Z' {
            c as int + 32
        } else {
            c as int
        }),
{
}

} // verus!
