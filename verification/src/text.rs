//! Text as sequences of characters: equality, the order by which keys are
//! sorted, trimming, searching, and numbers in decimal and hexadecimal.

use vstd::prelude::*;

verus! {

/// The characters of `s`, in order.
pub fn chars_of(s: &str) -> (out: Vec<char>)
    ensures
        out@ == s@,
{
    let mut out: Vec<char> = Vec::new();
    for c in it: s.chars()
        invariant
            out@ == it.seq().take(it.index() as int),
            it.seq() == s@,
    {
        out.push(c);
    }
    out
}

/// Whether `a` and `b` hold the same characters.
pub fn same_text(a: &str, b: &str) -> (r: bool)
    ensures
        r == (a@ == b@),
{
    let x = chars_of(a);
    let y = chars_of(b);
    if x.len() != y.len() {
        return false;
    }
    let mut i: usize = 0;
    while i < x.len()
        invariant
            i <= x.len(),
            x.len() == y.len(),
            x@ == a@,
            y@ == b@,
            forall|j: int| 0 <= j < i ==> x@[j] == y@[j],
        decreases x.len() - i,
    {
        if x[i] != y[i] {
            return false;
        }
        i += 1;
    }
    proof {
        assert(x@ =~= y@);
    }
    true
}

/// `a` comes before `b` in the lexicographic order by code point, looking
/// only at the positions from `i` on.
pub open spec fn precedes_from(a: Seq<char>, b: Seq<char>, i: int) -> bool
    decreases a.len() - i,
{
    if i < 0 || i >= b.len() {
        false
    } else if i >= a.len() {
        true
    } else if a[i] != b[i] {
        (a[i] as int) < (b[i] as int)
    } else {
        precedes_from(a, b, i + 1)
    }
}

/// `a` comes strictly before `b` in the lexicographic order by code point:
/// a proper prefix comes before the longer text, and otherwise the first
/// position at which the two differ decides.
pub open spec fn precedes(a: Seq<char>, b: Seq<char>) -> bool {
    precedes_from(a, b, 0)
}

/// No text comes before itself.
pub proof fn lemma_precedes_irreflexive(a: Seq<char>, i: int)
    requires
        0 <= i,
    ensures
        !precedes_from(a, a, i),
    decreases a.len() - i,
{
    if i < a.len() {
        lemma_precedes_irreflexive(a, i + 1);
    }
}

/// The order is transitive.
pub proof fn lemma_precedes_transitive(a: Seq<char>, b: Seq<char>, c: Seq<char>, i: int)
    requires
        0 <= i,
        precedes_from(a, b, i),
        precedes_from(b, c, i),
    ensures
        precedes_from(a, c, i),
    decreases a.len() - i,
{
    if i < a.len() && i < b.len() && i < c.len() && a[i] == b[i] && b[i] == c[i] {
        lemma_precedes_transitive(a, b, c, i + 1);
    }
}

/// Two texts that agree before `i`, neither of which comes before the other
/// from `i` on, are the same text.
pub proof fn lemma_precedes_total(a: Seq<char>, b: Seq<char>, i: int)
    requires
        0 <= i <= a.len(),
        i <= b.len(),
        forall|j: int| 0 <= j < i ==> a[j] == b[j],
        !precedes_from(a, b, i),
        !precedes_from(b, a, i),
    ensures
        a == b,
    decreases a.len() - i,
{
    if i < a.len() && i < b.len() {
        lemma_precedes_total(a, b, i + 1);
    } else {
        assert(a =~= b);
    }
}

/// Of two texts at most one comes before the other.
pub proof fn lemma_precedes_asymmetric(a: Seq<char>, b: Seq<char>, i: int)
    requires
        0 <= i,
        precedes_from(a, b, i),
    ensures
        !precedes_from(b, a, i),
    decreases a.len() - i,
{
    if i < a.len() && i < b.len() && a[i] == b[i] {
        lemma_precedes_asymmetric(a, b, i + 1);
    }
}

/// Whether `a` comes strictly before `b` in the lexicographic order by code
/// point.
pub fn text_precedes(a: &str, b: &str) -> (r: bool)
    ensures
        r == precedes(a@, b@),
{
    let x = chars_of(a);
    let y = chars_of(b);
    let mut i: usize = 0;
    while i < x.len() && i < y.len()
        invariant
            i <= x.len(),
            i <= y.len(),
            x@ == a@,
            y@ == b@,
            precedes(a@, b@) == precedes_from(a@, b@, i as int),
        decreases x.len() - i,
    {
        if x[i] != y[i] {
            return x[i] < y[i];
        }
        i += 1;
    }
    i < y.len()
}

/// The characters that trimming removes from both ends of a text: space,
/// tab, line feed and carriage return.
pub open spec fn is_blank(c: char) -> bool {
    c == ' ' || c == '\t' || c == '\n' || c == '\r'
}

/// The number of blank characters at the start of `s`.
pub open spec fn leading_blanks(s: Seq<char>) -> nat
    decreases s.len(),
{
    if s.len() > 0 && is_blank(s[0]) {
        1 + leading_blanks(s.drop_first())
    } else {
        0
    }
}

/// The number of blank characters at the end of `s`.
pub open spec fn trailing_blanks(s: Seq<char>) -> nat
    decreases s.len(),
{
    if s.len() > 0 && is_blank(s.last()) {
        1 + trailing_blanks(s.drop_last())
    } else {
        0
    }
}

/// `s` without the blank characters at its two ends.
pub open spec fn trimmed(s: Seq<char>) -> Seq<char> {
    let rest = s.skip(leading_blanks(s) as int);
    rest.take(rest.len() - trailing_blanks(rest))
}

/// The blanks at the start are counted up to the first character that is
/// no blank.
pub proof fn lemma_leading_blanks_bound(s: Seq<char>)
    ensures
        leading_blanks(s) <= s.len(),
        forall|j: int| 0 <= j < leading_blanks(s) ==> is_blank(#[trigger] s[j]),
        leading_blanks(s) < s.len() ==> !is_blank(s[leading_blanks(s) as int]),
    decreases s.len(),
{
    if s.len() > 0 && is_blank(s[0]) {
        let t = s.drop_first();
        lemma_leading_blanks_bound(t);
        assert forall|j: int| 0 <= j < leading_blanks(s) implies is_blank(#[trigger] s[j]) by {
            if j > 0 {
                assert(s[j] == t[j - 1]);
            }
        }
        if leading_blanks(s) < s.len() {
            assert(s[leading_blanks(s) as int] == t[leading_blanks(t) as int]);
        }
    }
}

/// The blanks at the end are counted back to the last character that is
/// no blank.
pub proof fn lemma_trailing_blanks_bound(s: Seq<char>)
    ensures
        trailing_blanks(s) <= s.len(),
        forall|j: int| s.len() - trailing_blanks(s) <= j < s.len() ==> is_blank(#[trigger] s[j]),
        trailing_blanks(s) < s.len() ==> !is_blank(s[s.len() - trailing_blanks(s) - 1]),
    decreases s.len(),
{
    if s.len() > 0 && is_blank(s.last()) {
        let t = s.drop_last();
        lemma_trailing_blanks_bound(t);
        assert forall|j: int| s.len() - trailing_blanks(s) <= j < s.len() implies is_blank(
            #[trigger] s[j],
        ) by {
            if j < s.len() - 1 {
                assert(s[j] == t[j]);
            }
        }
        if trailing_blanks(s) < s.len() {
            assert(s[s.len() - trailing_blanks(s) - 1] == t[t.len() - trailing_blanks(t) - 1]);
        }
    }
}

/// What is left after trimming is a piece of the text, with no blank at
/// either end; nothing is left exactly if the text holds blanks only.
/// Trimming it again changes nothing.
pub proof fn lemma_trimmed(s: Seq<char>)
    ensures
        trimmed(s).len() > 0 ==> !is_blank(trimmed(s)[0]) && !is_blank(
            trimmed(s)[trimmed(s).len() - 1],
        ),
        trimmed(s).len() == 0 <==> forall|i: int| 0 <= i < s.len() ==> is_blank(#[trigger] s[i]),
        trimmed(s) == s.subrange(
            leading_blanks(s) as int,
            (leading_blanks(s) + trimmed(s).len()) as int,
        ),
        leading_blanks(s) + trimmed(s).len() <= s.len(),
        trimmed(trimmed(s)) == trimmed(s),
{
    lemma_leading_blanks_bound(s);
    let rest = s.skip(leading_blanks(s) as int);
    lemma_trailing_blanks_bound(rest);
    let t = trimmed(s);
    if rest.len() > 0 {
        assert(rest[0] == s[leading_blanks(s) as int]);
        assert(trailing_blanks(rest) < rest.len());
        assert(t[0] == rest[0]);
        assert(t[t.len() - 1] == rest[rest.len() - trailing_blanks(rest) - 1]);
        assert(!is_blank(s[leading_blanks(s) as int]));
    } else {
        assert forall|i: int| 0 <= i < s.len() implies is_blank(#[trigger] s[i]) by {}
    }
    assert(t =~= s.subrange(leading_blanks(s) as int, (leading_blanks(s) + t.len()) as int));
    lemma_leading_blanks_is(t, 0);
    lemma_trailing_blanks_is(t, 0);
    assert(trimmed(t) =~= t);
}

/// The number of leading blanks is the first position that holds no blank.
proof fn lemma_leading_blanks_is(s: Seq<char>, n: int)
    requires
        0 <= n <= s.len(),
        forall|j: int| 0 <= j < n ==> is_blank(#[trigger] s[j]),
        n < s.len() ==> !is_blank(s[n]),
    ensures
        leading_blanks(s) == n,
    decreases s.len(),
{
    if n > 0 {
        let t = s.drop_first();
        assert(is_blank(s[0]));
        assert forall|j: int| 0 <= j < n - 1 implies is_blank(#[trigger] t[j]) by {
            assert(t[j] == s[j + 1]);
        }
        lemma_leading_blanks_is(t, n - 1);
    }
}

/// The number of trailing blanks is counted back from the last position that
/// holds no blank.
proof fn lemma_trailing_blanks_is(s: Seq<char>, n: int)
    requires
        0 <= n <= s.len(),
        forall|j: int| s.len() - n <= j < s.len() ==> is_blank(#[trigger] s[j]),
        n < s.len() ==> !is_blank(s[s.len() - n - 1]),
    ensures
        trailing_blanks(s) == n,
    decreases s.len(),
{
    if n > 0 {
        let t = s.drop_last();
        assert(is_blank(s[s.len() - 1]));
        assert forall|j: int| t.len() - (n - 1) <= j < t.len() implies is_blank(#[trigger] t[j]) by {
            assert(t[j] == s[j]);
        }
        lemma_trailing_blanks_is(t, n - 1);
    }
}

/// Whether `c` is one of the characters that trimming removes.
pub fn char_is_blank(c: char) -> (r: bool)
    ensures
        r == is_blank(c),
{
    c == ' ' || c == '\t' || c == '\n' || c == '\r'
}

/// `s` without the blank characters at its two ends.
pub fn trim(s: &str) -> (out: String)
    ensures
        out@ == trimmed(s@),
{
    let cs = chars_of(s);
    let mut start: usize = 0;
    while start < cs.len() && char_is_blank(cs[start])
        invariant
            start <= cs.len(),
            forall|j: int| 0 <= j < start ==> is_blank(#[trigger] cs@[j]),
        decreases cs.len() - start,
    {
        start += 1;
    }
    let mut end: usize = cs.len();
    while end > start && char_is_blank(cs[end - 1])
        invariant
            start <= end <= cs.len(),
            forall|j: int| end <= j < cs.len() ==> is_blank(#[trigger] cs@[j]),
        decreases end,
    {
        end -= 1;
    }
    proof {
        lemma_leading_blanks_is(cs@, start as int);
        let rest = cs@.skip(start as int);
        assert forall|j: int| rest.len() - (cs.len() - end) <= j < rest.len() implies is_blank(
            #[trigger] rest[j],
        ) by {
            assert(rest[j] == cs@[j + start]);
        }
        if end > start {
            assert(rest[rest.len() - (cs.len() - end) - 1] == cs@[end - 1]);
        }
        lemma_trailing_blanks_is(rest, cs.len() - end);
        assert(rest.take(rest.len() - (cs.len() - end)) =~= cs@.subrange(start as int, end as int));
    }
    let piece = s.substring_char(start, end);
    String::from_str(piece)
}

/// The character that stands for the digit `d` in a decimal number.
pub open spec fn digit_char(d: nat) -> char {
    if d == 0 {
        '0'
    } else if d == 1 {
        '1'
    } else if d == 2 {
        '2'
    } else if d == 3 {
        '3'
    } else if d == 4 {
        '4'
    } else if d == 5 {
        '5'
    } else if d == 6 {
        '6'
    } else if d == 7 {
        '7'
    } else if d == 8 {
        '8'
    } else {
        '9'
    }
}

/// `n` written in decimal, without leading zeros.
pub open spec fn decimal(n: nat) -> Seq<char>
    decreases n,
{
    if n < 10 {
        seq![digit_char(n)]
    } else {
        decimal(n / 10).push(digit_char(n % 10))
    }
}

/// The one-character text of a decimal digit.
fn digit_text(d: u32) -> (r: &'static str)
    requires
        d < 10,
    ensures
        r@ == seq![digit_char(d as nat)],
{
    proof {
        reveal_strlit("0");
        reveal_strlit("1");
        reveal_strlit("2");
        reveal_strlit("3");
        reveal_strlit("4");
        reveal_strlit("5");
        reveal_strlit("6");
        reveal_strlit("7");
        reveal_strlit("8");
        reveal_strlit("9");
    }
    let r = if d == 0 {
        "0"
    } else if d == 1 {
        "1"
    } else if d == 2 {
        "2"
    } else if d == 3 {
        "3"
    } else if d == 4 {
        "4"
    } else if d == 5 {
        "5"
    } else if d == 6 {
        "6"
    } else if d == 7 {
        "7"
    } else if d == 8 {
        "8"
    } else {
        "9"
    };
    assert(r@ =~= seq![digit_char(d as nat)]);
    r
}

/// Appends `n`, written in decimal, to `out`.
pub fn push_decimal(out: &mut String, n: u32)
    ensures
        final(out)@ == old(out)@ + decimal(n as nat),
    decreases n,
{
    if n < 10 {
        out.append(digit_text(n));
    } else {
        push_decimal(out, n / 10);
        out.append(digit_text(n % 10));
        assert(final(out)@ =~= old(out)@ + decimal(n as nat));
    }
}

/// The first position in `from..to` at which `s` holds `c`, or `to` if there
/// is none.
pub open spec fn index_of(s: Seq<char>, c: char, from: int, to: int) -> int
    decreases to - from,
{
    if from >= to {
        to
    } else if s[from] == c {
        from
    } else {
        index_of(s, c, from + 1, to)
    }
}

/// The position that `index_of` gives lies in `from..=to`, holds `c` unless
/// it is `to`, and no position before it holds `c`.
pub proof fn lemma_index_of(s: Seq<char>, c: char, from: int, to: int)
    requires
        from <= to,
    ensures
        from <= index_of(s, c, from, to) <= to,
        index_of(s, c, from, to) < to ==> s[index_of(s, c, from, to)] == c,
        forall|j: int| from <= j < index_of(s, c, from, to) ==> s[j] != c,
    decreases to - from,
{
    if from < to && s[from] != c {
        lemma_index_of(s, c, from + 1, to);
    }
}

/// The first position in `from..to` at which `cs` holds `c`, or `to`.
pub(crate) fn find(cs: &Vec<char>, c: char, from: usize, to: usize) -> (at: usize)
    requires
        from <= to <= cs.len(),
    ensures
        at == index_of(cs@, c, from as int, to as int),
        from <= at <= to,
{
    let mut at: usize = from;
    while at < to && cs[at] != c
        invariant
            from <= at <= to <= cs.len(),
            index_of(cs@, c, from as int, to as int) == index_of(cs@, c, at as int, to as int),
        decreases to - at,
    {
        at += 1;
    }
    at
}

/// Whether `cs` holds `key` from position `at` on.
pub(crate) fn holds(cs: &Vec<char>, at: usize, key: &Vec<char>) -> (r: bool)
    requires
        at + key.len() <= cs.len(),
    ensures
        r == (cs@.subrange(at as int, at + key.len()) == key@),
{
    let mut i: usize = 0;
    while i < key.len()
        invariant
            i <= key.len(),
            at + key.len() <= cs.len(),
            forall|j: int| 0 <= j < i ==> cs@[at + j] == key@[j],
        decreases key.len() - i,
    {
        if cs[at + i] != key[i] {
            proof {
                assert(cs@.subrange(at as int, at + key.len())[i as int] == cs@[at + i]);
            }
            return false;
        }
        i += 1;
    }
    proof {
        assert(cs@.subrange(at as int, at + key.len()) =~= key@);
    }
    true
}

/// The character that stands for the digit `d` in a hexadecimal number.
pub open spec fn hex_digit_char(d: nat) -> char {
    if d < 10 {
        digit_char(d)
    } else if d == 10 {
        'a'
    } else if d == 11 {
        'b'
    } else if d == 12 {
        'c'
    } else if d == 13 {
        'd'
    } else if d == 14 {
        'e'
    } else {
        'f'
    }
}

/// `n` written in hexadecimal with small letters, without leading zeros.
pub open spec fn hexadecimal(n: nat) -> Seq<char>
    decreases n,
{
    if n < 16 {
        seq![hex_digit_char(n)]
    } else {
        hexadecimal(n / 16).push(hex_digit_char(n % 16))
    }
}

/// The byte `b` written as two hexadecimal digits.
pub open spec fn hex_pair(b: u8) -> Seq<char> {
    seq![hex_digit_char((b / 16) as nat), hex_digit_char((b % 16) as nat)]
}

/// The one-character text of a hexadecimal digit.
fn hex_digit_text(d: u32) -> (r: &'static str)
    requires
        d < 16,
    ensures
        r@ == seq![hex_digit_char(d as nat)],
{
    if d < 10 {
        return digit_text(d);
    }
    proof {
        reveal_strlit("a");
        reveal_strlit("b");
        reveal_strlit("c");
        reveal_strlit("d");
        reveal_strlit("e");
        reveal_strlit("f");
    }
    let r = if d == 10 {
        "a"
    } else if d == 11 {
        "b"
    } else if d == 12 {
        "c"
    } else if d == 13 {
        "d"
    } else if d == 14 {
        "e"
    } else {
        "f"
    };
    assert(r@ =~= seq![hex_digit_char(d as nat)]);
    r
}

/// Appends `n`, written in hexadecimal, to `out`.
pub fn push_hexadecimal(out: &mut String, n: u32)
    ensures
        final(out)@ == old(out)@ + hexadecimal(n as nat),
    decreases n,
{
    if n < 16 {
        out.append(hex_digit_text(n));
    } else {
        push_hexadecimal(out, n / 16);
        out.append(hex_digit_text(n % 16));
        assert(final(out)@ =~= old(out)@ + hexadecimal(n as nat));
    }
}

/// Appends the byte `b`, written as two hexadecimal digits, to `out`.
pub fn push_hex_pair(out: &mut String, b: u8)
    ensures
        final(out)@ == old(out)@ + hex_pair(b),
{
    out.append(hex_digit_text((b / 16) as u32));
    out.append(hex_digit_text((b % 16) as u32));
    assert(final(out)@ =~= old(out)@ + hex_pair(b));
}

} // verus!
