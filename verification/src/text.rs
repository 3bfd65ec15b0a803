//! Text as sequences of characters: comparing, searching and ordering it, and the numbers
//! written in it.

use vstd::prelude::*;

verus! {

/// `String::push`: appends the character to the end of the string.
pub assume_specification[ String::push ](text: &mut String, c: char)
    ensures
        final(text)@ == old(text)@.push(c),
;

/// What the texts hold.
pub open spec fn texts(strings: Seq<String>) -> Seq<Seq<char>> {
    strings.map_values(|s: String| s@)
}

/// The characters of the text.
pub fn chars_of(text: &str) -> (chars: Vec<char>)
    ensures
        chars@ == text@,
{
    let mut chars: Vec<char> = Vec::new();
    for c in it: text.chars()
        invariant
            chars@ == text@.take(it.index()),
            it.seq() == text@,
    {
        chars.push(c);
    }
    assert(text@.take(text@.len() as int) =~= text@);
    chars
}

/// Whether the two texts hold the same characters.
pub fn same_text(a: &str, b: &str) -> (same: bool)
    ensures
        same == (a@ == b@),
{
    let left = chars_of(a);
    let right = chars_of(b);
    if left.len() != right.len() {
        return false;
    }
    let mut i: usize = 0;
    while i < left.len()
        invariant
            0 <= i <= left.len() == right.len(),
            left@ == a@,
            right@ == b@,
            forall|j: int| 0 <= j < i ==> left[j] == right[j],
        decreases left.len() - i,
    {
        if left[i] != right[i] {
            return false;
        }
        i = i + 1;
    }
    assert(left@ =~= right@);
    true
}

/// Whether Unicode gives the character the property `White_Space`.
pub open spec fn white_space(c: char) -> bool {
    ||| '\u{9}' <= c <= '\u{d}'
    ||| c == ' '
    ||| c == '\u{85}'
    ||| c == '\u{a0}'
    ||| c == '\u{1680}'
    ||| '\u{2000}' <= c <= '\u{200a}'
    ||| c == '\u{2028}'
    ||| c == '\u{2029}'
    ||| c == '\u{202f}'
    ||| c == '\u{205f}'
    ||| c == '\u{3000}'
}

/// The text without white space at its ends.
pub open spec fn trimmed(s: Seq<char>) -> Seq<char>
    decreases s.len(),
{
    if s.len() > 0 && white_space(s.first()) {
        trimmed(s.drop_first())
    } else if s.len() > 0 && white_space(s.last()) {
        trimmed(s.drop_last())
    } else {
        s
    }
}

/// Tells whether the character is white space.
pub fn is_white_space(c: char) -> (white: bool)
    ensures
        white == white_space(c),
{
    ('\u{9}' <= c && c <= '\u{d}') || c == ' ' || c == '\u{85}' || c == '\u{a0}' || c == '\u{1680}'
        || ('\u{2000}' <= c && c <= '\u{200a}') || c == '\u{2028}' || c == '\u{2029}' || c
        == '\u{202f}' || c == '\u{205f}' || c == '\u{3000}'
}

/// The text without white space at its ends.
pub fn trim<'a>(text: &'a str) -> (inner: &'a str)
    ensures
        inner@ == trimmed(text@),
{
    let chars = chars_of(text);
    let mut from: usize = 0;
    let mut to: usize = chars.len();
    assert(text@.subrange(0, to as int) =~= text@);
    while from < to && is_white_space(chars[from])
        invariant
            from <= to == chars.len(),
            chars@ == text@,
            trimmed(text@) == trimmed(text@.subrange(from as int, to as int)),
        decreases to - from,
    {
        assert(text@.subrange(from as int, to as int).drop_first() =~= text@.subrange(
            from + 1,
            to as int,
        ));
        from = from + 1;
    }
    while from < to && is_white_space(chars[to - 1])
        invariant
            from <= to <= chars.len(),
            chars@ == text@,
            from < to ==> !white_space(text@[from as int]),
            trimmed(text@) == trimmed(text@.subrange(from as int, to as int)),
        decreases to - from,
    {
        assert(text@.subrange(from as int, to as int).drop_last() =~= text@.subrange(
            from as int,
            to - 1,
        ));
        to = to - 1;
    }
    text.substring_char(from, to)
}

/// The character in lower case, if it is an ASCII letter.
pub open spec fn ascii_lower(c: char) -> char {
    if 'A' <= c <= 'Z' {
        (c as int + 32) as char
    } else {
        c
    }
}

/// Whether the texts are equal but for the case of ASCII letters.
pub open spec fn equal_ignoring_case(a: Seq<char>, b: Seq<char>) -> bool {
    &&& a.len() == b.len()
    &&& forall|i: int| 0 <= i < a.len() ==> ascii_lower(#[trigger] a[i]) == ascii_lower(b[i])
}

/// The character in lower case, if it is an ASCII letter.
pub fn lower(c: char) -> (low: char)
    ensures
        low == ascii_lower(c),
{
    if 'A' <= c && c <= 'Z' {
        (c as u8 + 32) as char
    } else {
        c
    }
}

/// Tells whether the texts are equal but for the case of ASCII letters.
pub fn same_ignoring_case(a: &Vec<char>, b: &Vec<char>) -> (same: bool)
    ensures
        same == equal_ignoring_case(a@, b@),
{
    if a.len() != b.len() {
        return false;
    }
    let mut i: usize = 0;
    while i < a.len()
        invariant
            0 <= i <= a.len() == b.len(),
            forall|j: int| 0 <= j < i ==> ascii_lower(#[trigger] a[j]) == ascii_lower(b[j]),
        decreases a.len() - i,
    {
        if lower(a[i]) != lower(b[i]) {
            assert(ascii_lower(a@[i as int]) != ascii_lower(b@[i as int]));
            return false;
        }
        i = i + 1;
    }
    true
}

/// Whether `part` stands in `s` from the position `at` on.
pub open spec fn stands_at(s: Seq<char>, part: Seq<char>, at: int) -> bool {
    0 <= at <= s.len() - part.len() && s.subrange(at, at + part.len()) == part
}

/// Whether `s` contains `part`.
pub open spec fn contains_text(s: Seq<char>, part: Seq<char>) -> bool {
    exists|at: int| stands_at(s, part, at)
}

/// Whether `s` starts with `part`.
pub open spec fn starts_with_text(s: Seq<char>, part: Seq<char>) -> bool {
    stands_at(s, part, 0)
}

/// Whether `s` ends with `part`.
pub open spec fn ends_with_text(s: Seq<char>, part: Seq<char>) -> bool {
    stands_at(s, part, s.len() - part.len())
}

/// Tells whether `part` stands in `chars` from the position `at` on.
pub fn stands(chars: &Vec<char>, part: &Vec<char>, at: usize) -> (found: bool)
    ensures
        found == stands_at(chars@, part@, at as int),
{
    if part.len() > chars.len() || at > chars.len() - part.len() {
        return false;
    }
    let ghost slice = chars@.subrange(at as int, at + part.len());
    let mut i: usize = 0;
    while i < part.len()
        invariant
            0 <= i <= part.len(),
            at + part.len() <= chars.len(),
            slice == chars@.subrange(at as int, at + part.len()),
            forall|j: int| 0 <= j < i ==> slice[j] == part[j],
        decreases part.len() - i,
    {
        if chars[at + i] != part[i] {
            assert(slice[i as int] != part[i as int]);
            return false;
        }
        i = i + 1;
    }
    assert(slice =~= part@);
    true
}

/// Tells whether the text contains `part`.
pub fn contains(text: &str, part: &str) -> (found: bool)
    ensures
        found == contains_text(text@, part@),
{
    let chars = chars_of(text);
    let wanted = chars_of(part);
    let mut at: usize = 0;
    while at < chars.len()
        invariant
            0 <= at <= chars.len(),
            chars@ == text@,
            wanted@ == part@,
            forall|k: int| 0 <= k < at ==> !stands_at(chars@, wanted@, k),
        decreases chars.len() - at,
    {
        if stands(&chars, &wanted, at) {
            return true;
        }
        at = at + 1;
    }
    stands(&chars, &wanted, at)
}

/// Tells whether the text ends with `part`.
pub fn ends_with(text: &str, part: &str) -> (found: bool)
    ensures
        found == ends_with_text(text@, part@),
{
    let chars = chars_of(text);
    let wanted = chars_of(part);
    if wanted.len() > chars.len() {
        return false;
    }
    stands(&chars, &wanted, chars.len() - wanted.len())
}

/// The decimal digit `d`.
pub open spec fn digit(d: int) -> char {
    (48 + d) as char
}

/// `n` in decimal, without leading zeros.
pub open spec fn decimal(n: nat) -> Seq<char>
    decreases n,
{
    if n < 10 {
        seq![digit(n as int)]
    } else {
        decimal(n / 10).push(digit((n % 10) as int))
    }
}

/// `n` zeros.
pub open spec fn zeros(n: int) -> Seq<char> {
    Seq::new(
        if n > 0 {
            n as nat
        } else {
            0
        },
        |i: int| '0',
    )
}

/// `n` in decimal, filled with zeros behind the sign to at least `width` characters.
pub open spec fn padded(n: int, width: nat) -> Seq<char> {
    if n < 0 {
        seq!['-'] + zeros(width - 1 - decimal((-n) as nat).len()) + decimal((-n) as nat)
    } else {
        zeros(width - decimal(n as nat).len()) + decimal(n as nat)
    }
}

/// Appends `n` in decimal to `out`.
pub fn push_decimal(out: &mut String, n: u64)
    ensures
        final(out)@ == old(out)@ + decimal(n as nat),
    decreases n,
{
    if n >= 10 {
        push_decimal(out, n / 10);
    }
    let d: u8 = (n % 10) as u8;
    out.push((48 + d) as char);
}

/// Appends `n` in decimal to `out`, filled with zeros behind the sign to at least `width`
/// characters.
pub fn push_padded(out: &mut String, n: i64, width: usize)
    ensures
        final(out)@ == old(out)@ + padded(n as int, width as nat),
{
    let ghost start = out@;
    let mut digits = String::new();
    let magnitude: u64 = if n < 0 {
        (-(n as i128)) as u64
    } else {
        n as u64
    };
    push_decimal(&mut digits, magnitude);
    let len: usize = digits.as_str().unicode_len();
    let mut filled: usize = len;
    if n < 0 {
        out.push('-');
        if filled < usize::MAX {
            filled = filled + 1;
        }
    }
    let ghost sign: Seq<char> = if n < 0 {
        seq!['-']
    } else {
        seq![]
    };
    assert(out@ =~= start + sign);
    let ghost first = filled as int;
    while filled < width
        invariant
            first <= filled,
            filled <= width || filled == first,
            out@ =~= start + sign + zeros(filled - first),
        decreases width - filled,
    {
        out.push('0');
        filled = filled + 1;
    }
    out.append(digits.as_str());
    assert(out@ =~= start + padded(n as int, width as nat));
}

/// Whether every character is a decimal digit.
pub open spec fn all_digits(s: Seq<char>) -> bool {
    forall|i: int| 0 <= i < s.len() ==> '0' <= #[trigger] s[i] <= '9'
}

/// The number that the digits write in decimal.
pub open spec fn digits_value(s: Seq<char>) -> int
    decreases s.len(),
{
    if s.len() == 0 {
        0
    } else {
        10 * digits_value(s.drop_last()) + (s.last() as int - 48)
    }
}

/// The number that the text writes in decimal, with an optional minus sign.
pub open spec fn signed_value(s: Seq<char>) -> int {
    if s.len() > 0 && s[0] == '-' {
        -digits_value(s.skip(1))
    } else {
        digits_value(s)
    }
}

/// Reading back a decimal gives the number.
pub proof fn lemma_decimal_reads_back(n: nat)
    ensures
        all_digits(decimal(n)),
        decimal(n).len() >= 1,
        digits_value(decimal(n)) == n,
    decreases n,
{
    reveal_with_fuel(digits_value, 2);
    if n >= 10 {
        lemma_decimal_reads_back(n / 10);
        assert(decimal(n).drop_last() =~= decimal(n / 10));
    }
}

proof fn lemma_leading_zeros(k: int, s: Seq<char>)
    requires
        all_digits(s),
    ensures
        all_digits(zeros(k) + s),
        digits_value(zeros(k) + s) == digits_value(s),
    decreases s.len(), k,
{
    let t = zeros(k) + s;
    if s.len() > 0 {
        assert(t.drop_last() =~= zeros(k) + s.drop_last());
        lemma_leading_zeros(k, s.drop_last());
    } else if k > 0 {
        assert(t.drop_last() =~= zeros(k - 1) + s);
        lemma_leading_zeros(k - 1, s);
    } else {
        assert(t =~= s);
    }
}

/// Reading back a padded number gives the number.
pub proof fn lemma_padded_reads_back(n: int, width: nat)
    ensures
        padded(n, width).len() >= width,
        padded(n, width).len() >= 1,
        signed_value(padded(n, width)) == n,
        n >= 0 ==> all_digits(padded(n, width)) && digits_value(padded(n, width)) == n,
        n < 0 ==> padded(n, width)[0] == '-' && all_digits(padded(n, width).skip(1))
            && padded(n, width).len() >= 2,
{
    let s = padded(n, width);
    if n < 0 {
        let d = decimal((-n) as nat);
        lemma_decimal_reads_back((-n) as nat);
        lemma_leading_zeros(width - 1 - d.len(), d);
        assert(s.skip(1) =~= zeros(width - 1 - d.len()) + d);
    } else {
        let d = decimal(n as nat);
        lemma_decimal_reads_back(n as nat);
        lemma_leading_zeros(width - d.len(), d);
    }
}

/// A number of at most two digits, padded to two.
pub proof fn lemma_two_digits(n: int)
    requires
        0 <= n <= 99,
    ensures
        padded(n, 2) == seq![digit(n / 10), digit(n % 10)],
{
    reveal_with_fuel(decimal, 2);
    assert(padded(n, 2) =~= seq![digit(n / 10), digit(n % 10)]);
}

/// Reads the digits from `from` up to `to` as a number below `limit`.
pub fn read_number(chars: &Vec<char>, from: usize, to: usize, limit: u64) -> (number: Option<u64>)
    requires
        from <= to <= chars.len(),
        1 <= limit <= 1_000_000_000_000_000,
    ensures
        number == {
            let s = chars@.subrange(from as int, to as int);
            if all_digits(s) && digits_value(s) < limit {
                Some(digits_value(s) as u64)
            } else {
                None
            }
        },
        number matches Some(n) ==> n == digits_value(chars@.subrange(from as int, to as int)),
{
    let ghost s = chars@.subrange(from as int, to as int);
    let mut value: u64 = 0;
    let mut i: usize = from;
    while i < to
        invariant
            from <= i <= to <= chars.len(),
            s == chars@.subrange(from as int, to as int),
            1 <= limit <= 1_000_000_000_000_000,
            all_digits(s.take(i - from)),
            0 <= digits_value(s.take(i - from)),
            value == if digits_value(s.take(i - from)) < limit {
                digits_value(s.take(i - from))
            } else {
                limit as int
            },
        decreases to - i,
    {
        let c = chars[i];
        assert(s[i - from] == c);
        if c < '0' || c > '9' {
            return None;
        }
        let d: u64 = (c as u32 - 48) as u64;
        value = value * 10 + d;
        if value > limit {
            value = limit;
        }
        let ghost read = s.take(i - from + 1);
        assert(read.drop_last() =~= s.take(i - from));
        assert(read.last() == c);
        i = i + 1;
    }
    assert(s.take(to - from) =~= s);
    if value < limit {
        Some(value)
    } else {
        None
    }
}

/// Whether `a` and `b` agree before the position `k`, and `a` comes first there: it ends, or
/// has the smaller character.
pub open spec fn splits_at(a: Seq<char>, b: Seq<char>, k: int) -> bool {
    &&& 0 <= k <= a.len()
    &&& k < b.len()
    &&& forall|i: int| 0 <= i < k ==> a[i] == b[i]
    &&& k == a.len() || a[k] < b[k]
}

/// Whether `a` comes before `b` in the order of their characters.
pub open spec fn text_before(a: Seq<char>, b: Seq<char>) -> bool {
    exists|k: int| splits_at(a, b, k)
}

/// Texts of one length keep their order behind a common start and before any ends.
pub proof fn lemma_before_in_context(
    start: Seq<char>,
    a: Seq<char>,
    a_end: Seq<char>,
    b: Seq<char>,
    b_end: Seq<char>,
)
    requires
        a.len() == b.len(),
        text_before(a, b),
    ensures
        text_before(start + a + a_end, start + b + b_end),
{
    let k = choose|k: int| splits_at(a, b, k);
    assert(splits_at(start + a + a_end, start + b + b_end, start.len() + k));
}

proof fn lemma_digits_determined(a: Seq<char>, b: Seq<char>)
    requires
        all_digits(a),
        all_digits(b),
        a.len() == b.len(),
        digits_value(a) == digits_value(b),
    ensures
        a == b,
    decreases a.len(),
{
    if a.len() > 0 {
        lemma_digits_determined(a.drop_last(), b.drop_last());
        assert(a =~= a.drop_last().push(a.last()));
        assert(b =~= b.drop_last().push(b.last()));
    } else {
        assert(a =~= b);
    }
}

/// Numbers written with the same count of digits are ordered as their texts are.
pub proof fn lemma_digits_in_order(a: Seq<char>, b: Seq<char>)
    requires
        all_digits(a),
        all_digits(b),
        a.len() == b.len(),
        digits_value(a) < digits_value(b),
    ensures
        text_before(a, b),
    decreases a.len(),
{
    let x = a.drop_last();
    let y = b.drop_last();
    if digits_value(x) < digits_value(y) {
        lemma_digits_in_order(x, y);
        lemma_before_in_context(seq![], x, seq![a.last()], y, seq![b.last()]);
        assert(seq![] + x + seq![a.last()] =~= a);
        assert(seq![] + y + seq![b.last()] =~= b);
    } else {
        lemma_digits_determined(x, y);
        assert forall|i: int| 0 <= i < a.len() - 1 implies a[i] == b[i] by {
            assert(x[i] == y[i]);
        }
        assert(splits_at(a, b, a.len() - 1));
    }
}

/// Tells whether `a` comes before `b` in the order of their characters.
pub fn is_before(a: &str, b: &str) -> (before: bool)
    ensures
        before == text_before(a@, b@),
{
    let left = chars_of(a);
    let right = chars_of(b);
    let mut i: usize = 0;
    while i < left.len() && i < right.len() && left[i] == right[i]
        invariant
            0 <= i <= left.len(),
            i <= right.len(),
            forall|j: int| 0 <= j < i ==> left[j] == right[j],
        decreases left.len() - i,
    {
        i = i + 1;
    }
    let before = i < right.len() && (i == left.len() || left[i] < right[i]);
    proof {
        if before {
            assert(splits_at(a@, b@, i as int));
        } else {
            assert forall|k: int| !splits_at(a@, b@, k) by {
                if splits_at(a@, b@, k) {
                    if k < i {
                        assert(left[k] == right[k]);
                    } else if k > i {
                        assert(a@[i as int] == b@[i as int]);
                    }
                }
            }
        }
    }
    before
}

/// No text comes before itself, and of two texts at most one comes before the other.
pub proof fn lemma_before_is_asymmetric(a: Seq<char>, b: Seq<char>)
    requires
        text_before(a, b),
    ensures
        !text_before(b, a),
{
    let k = choose|k: int| splits_at(a, b, k);
    assert forall|m: int| !splits_at(b, a, m) by {
        if splits_at(b, a, m) {
            if m < k {
                assert(a[m] == b[m]);
            } else if k < m {
                assert(b[k] == a[k]);
            }
        }
    }
}

/// The order is transitive.
pub proof fn lemma_before_is_transitive(a: Seq<char>, b: Seq<char>, c: Seq<char>)
    requires
        text_before(a, b),
        text_before(b, c),
    ensures
        text_before(a, c),
{
    let k = choose|k: int| splits_at(a, b, k);
    let m = choose|m: int| splits_at(b, c, m);
    let first = if k < m {
        k
    } else {
        m
    };
    assert forall|i: int| 0 <= i < first implies a[i] == c[i] by {
        assert(a[i] == b[i]);
        assert(b[i] == c[i]);
    }
    if k < m {
        assert(b[k] == c[k]);
    } else if m < k {
        assert(a[m] == b[m]);
    }
    assert(splits_at(a, c, first));
}

/// Of two different texts one comes before the other.
pub proof fn lemma_before_is_total(a: Seq<char>, b: Seq<char>)
    ensures
        text_before(a, b) || a == b || text_before(b, a),
{
    lemma_first_difference(a, b, 0);
}

proof fn lemma_first_difference(a: Seq<char>, b: Seq<char>, k: int)
    requires
        0 <= k <= a.len(),
        k <= b.len(),
        forall|i: int| 0 <= i < k ==> a[i] == b[i],
    ensures
        text_before(a, b) || a == b || text_before(b, a),
    decreases a.len() - k,
{
    if k == a.len() || k == b.len() {
        if k < b.len() {
            assert(splits_at(a, b, k));
        } else if k < a.len() {
            assert(splits_at(b, a, k));
        } else {
            assert(a =~= b);
        }
    } else if a[k] == b[k] {
        lemma_first_difference(a, b, k + 1);
    } else if a[k] < b[k] {
        assert(splits_at(a, b, k));
    } else {
        assert(splits_at(b, a, k));
    }
}

/// What is trimmed has no white space left at its ends.
pub proof fn lemma_trimmed_stays(s: Seq<char>)
    ensures
        trimmed(trimmed(s)) == trimmed(s),
    decreases s.len(),
{
    if s.len() > 0 && white_space(s.first()) {
        lemma_trimmed_stays(s.drop_first());
    } else if s.len() > 0 && white_space(s.last()) {
        lemma_trimmed_stays(s.drop_last());
    }
}

/// Trimming takes white space from both ends, all that stands there, and nothing else: the text
/// is what was taken in front, what is left, and what was taken behind.
pub proof fn lemma_trimmed_parts(s: Seq<char>) -> (parts: (Seq<char>, Seq<char>))
    ensures
        s == parts.0 + trimmed(s) + parts.1,
        forall|i: int| 0 <= i < parts.0.len() ==> white_space(#[trigger] parts.0[i]),
        forall|i: int| 0 <= i < parts.1.len() ==> white_space(#[trigger] parts.1[i]),
        trimmed(s).len() > 0 ==> !white_space(trimmed(s).first()) && !white_space(
            trimmed(s).last(),
        ),
    decreases s.len(),
{
    if s.len() > 0 && white_space(s.first()) {
        let (front, back) = lemma_trimmed_parts(s.drop_first());
        let longer = seq![s.first()] + front;
        assert(s =~= seq![s.first()] + s.drop_first());
        assert(s =~= longer + trimmed(s) + back);
        (longer, back)
    } else if s.len() > 0 && white_space(s.last()) {
        let (front, back) = lemma_trimmed_parts(s.drop_last());
        let longer = back.push(s.last());
        assert(s =~= s.drop_last().push(s.last()));
        assert(s =~= front + trimmed(s) + longer);
        (front, longer)
    } else {
        assert(s =~= Seq::empty() + s + Seq::empty());
        (Seq::empty(), Seq::empty())
    }
}

/// White space at the ends makes no difference to what is left.
pub proof fn lemma_trimmed_ignores_ends(front: Seq<char>, s: Seq<char>, back: Seq<char>)
    requires
        forall|i: int| 0 <= i < front.len() ==> white_space(#[trigger] front[i]),
        forall|i: int| 0 <= i < back.len() ==> white_space(#[trigger] back[i]),
    ensures
        trimmed(front + s + back) == trimmed(s),
    decreases front.len() + s.len() + back.len(),
{
    let all = front + s + back;
    if front.len() > 0 {
        assert(all.first() == front[0]);
        assert(all.drop_first() =~= front.drop_first() + s + back);
        lemma_trimmed_ignores_ends(front.drop_first(), s, back);
    } else if s.len() > 0 && white_space(s.first()) {
        assert(all.drop_first() =~= front + s.drop_first() + back);
        lemma_trimmed_ignores_ends(front, s.drop_first(), back);
    } else if back.len() > 0 {
        if s.len() == 0 {
            assert(all.first() == back[0]);
            assert(all.drop_first() =~= front + s + back.drop_first());
            lemma_trimmed_ignores_ends(front, s, back.drop_first());
        } else {
            assert(all.first() == s.first());
            assert(all.last() == back.last());
            assert(all.drop_last() =~= front + s + back.drop_last());
            lemma_trimmed_ignores_ends(front, s, back.drop_last());
        }
    } else {
        assert(all =~= s);
    }
}

/// A text contains what stands between any start and any end of it.
pub proof fn lemma_contains_between(start: Seq<char>, part: Seq<char>, end: Seq<char>)
    ensures
        contains_text(start + part + end, part),
{
    let at = start.len() as int;
    assert((start + part + end).subrange(at, at + part.len()) =~= part);
    assert(stands_at(start + part + end, part, at));
}

/// Where a text contains a part, it is a start, the part and an end.
pub proof fn lemma_contained_splits(s: Seq<char>, part: Seq<char>) -> (ends: (Seq<char>, Seq<char>))
    requires
        contains_text(s, part),
    ensures
        s == ends.0 + part + ends.1,
{
    let at = choose|at: int| stands_at(s, part, at);
    let start = s.take(at);
    let end = s.skip(at + part.len());
    assert(s =~= start + s.subrange(at, at + part.len()) + end);
    (start, end)
}

/// A text ends with a part where it is something and then the part, and only there.
pub proof fn lemma_ends_with(start: Seq<char>, s: Seq<char>, part: Seq<char>)
    ensures
        ends_with_text(start + part, part),
        ends_with_text(s, part) ==> s == s.take(s.len() - part.len()) + part,
{
    assert((start + part).subrange(start.len() as int, start.len() as int + part.len()) =~= part);
    if ends_with_text(s, part) {
        let n = s.len() - part.len();
        assert(s =~= s.take(n) + s.subrange(n, n + part.len()));
    }
}

/// A text starts with a part where it is the part and then something, and only there.
pub proof fn lemma_starts_with(part: Seq<char>, end: Seq<char>, s: Seq<char>)
    ensures
        starts_with_text(part + end, part),
        starts_with_text(s, part) ==> s == part + s.skip(part.len() as int),
{
    assert((part + end).subrange(0, part.len() as int) =~= part);
    if starts_with_text(s, part) {
        assert(s =~= s.subrange(0, part.len() as int) + s.skip(part.len() as int));
    }
}

/// Texts are equal but for the case of ASCII letters where their lower case forms are equal.
pub proof fn lemma_equal_in_lower_case(a: Seq<char>, b: Seq<char>)
    ensures
        equal_ignoring_case(a, b) == (a.map_values(|c: char| ascii_lower(c)) == b.map_values(
            |c: char| ascii_lower(c),
        )),
{
    let x = a.map_values(|c: char| ascii_lower(c));
    let y = b.map_values(|c: char| ascii_lower(c));
    if equal_ignoring_case(a, b) {
        assert(x =~= y);
    } else if x == y {
        assert(x.len() == y.len());
        assert forall|i: int| 0 <= i < a.len() implies ascii_lower(#[trigger] a[i]) == ascii_lower(
            b[i],
        ) by {
            assert(x[i] == y[i]);
        }
    }
}

/// A decimal has no leading zero, but for zero itself.
pub proof fn lemma_decimal_is_shortest(n: nat)
    ensures
        n > 0 ==> decimal(n)[0] != '0',
        decimal(0) == seq!['0'],
    decreases n,
{
    if n >= 10 {
        lemma_decimal_is_shortest(n / 10);
        lemma_decimal_reads_back(n / 10);
    }
    assert(decimal(0) =~= seq!['0']);
}

/// A padded number is filled to its width and no further: one that is as wide without zeros gets
/// none.
pub proof fn lemma_padded_is_shortest(n: nat, width: nat)
    ensures
        decimal(n).len() >= width ==> padded(n as int, width) == decimal(n),
        decimal(n).len() <= width ==> padded(n as int, width).len() == width,
        n > 0 && decimal(n).len() + 1 >= width ==> padded(-n, width) == seq!['-'] + decimal(n),
        n > 0 && decimal(n).len() + 1 <= width ==> padded(-n, width).len() == width,
{
    if decimal(n).len() >= width {
        assert(padded(n as int, width) =~= decimal(n));
    }
    if n > 0 && decimal(n).len() + 1 >= width {
        assert(padded(-n, width) =~= seq!['-'] + decimal(n));
    }
}

/// What comes first is decided where two texts differ first: by the smaller character, or by the
/// end of one of them; what follows makes no difference.
pub proof fn lemma_before_by_first_difference(
    start: Seq<char>,
    c: char,
    d: char,
    a: Seq<char>,
    b: Seq<char>,
)
    requires
        c < d,
    ensures
        text_before(start + seq![c] + a, start + seq![d] + b),
        text_before(start, start + seq![c] + a),
        !text_before(start, start),
{
    assert(splits_at(start + seq![c] + a, start + seq![d] + b, start.len() as int));
    assert(splits_at(start, start + seq![c] + a, start.len() as int));
    if text_before(start, start) {
        lemma_before_is_asymmetric(start, start);
    }
}

}
