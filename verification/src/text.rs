//! Text as sequences of characters: numbers, case, trimming and searching.

use vstd::prelude::*;
use vstd::string::*;

verus! {

/// `String::push` puts one character at the end.
pub assume_specification[ String::push ](s: &mut String, c: char)
    ensures
        final(s)@ == old(s)@.push(c),
;

/// The characters of `s`, one by one.
pub fn chars(s: &str) -> (out: Vec<char>)
    ensures
        out@ == s@,
{
    let mut out: Vec<char> = Vec::new();
    for c in it: s.chars()
        invariant
            it.seq() == s@,
            out@ == s@.subrange(0, it.index()),
    {
        out.push(c);
        assert(out@ =~= s@.subrange(0, it.index() + 1));
    }
    assert(s@.subrange(0, s@.len() as int) =~= s@);
    out
}

/// Appends characters to a text.
pub fn push_chars(s: &mut String, v: &[char])
    ensures
        final(s)@ == old(s)@ + v@,
{
    let mut i: usize = 0;
    while i < v.len()
        invariant
            i <= v@.len(),
            s@ == old(s)@ + v@.subrange(0, i as int),
        decreases v@.len() - i,
    {
        s.push(v[i]);
        i += 1;
        assert(s@ =~= old(s)@ + v@.subrange(0, i as int));
    }
    assert(v@.subrange(0, v@.len() as int) =~= v@);
}

/// Characters as a text.
pub fn text(v: &[char]) -> (s: String)
    ensures
        s@ == v@,
{
    let mut s: String = String::new();
    push_chars(&mut s, v);
    assert(s@ =~= v@);
    s
}

/// The character for a digit.
pub open spec fn digit(d: int) -> char {
    if d == 0 {
        '0'
    } else if d == 1 {
        '1'
    } else if d == 2 {
        '2'
    } else if d == 3 {
        '3'
    } else if d == 4 {
        '4'
    } else if d == 5 {
        '5'
    } else if d == 6 {
        '6'
    } else if d == 7 {
        '7'
    } else if d == 8 {
        '8'
    } else {
        '9'
    }
}

/// A number in decimal digits, without leading zeros.
pub open spec fn decimal(n: nat) -> Seq<char>
    decreases n,
{
    if n < 10 {
        seq![digit(n as int)]
    } else {
        decimal(n / 10).push(digit((n % 10) as int))
    }
}

/// `s` with zeros in front up to a width.
pub open spec fn zero_padded(s: Seq<char>, width: int) -> Seq<char> {
    if s.len() >= width {
        s
    } else {
        Seq::new((width - s.len()) as nat, |i: int| '0') + s
    }
}

/// The character for a digit.
fn digit_char(d: u128) -> (c: char)
    requires
        d < 10,
    ensures
        c == digit(d as int),
{
    if d == 0 {
        '0'
    } else if d == 1 {
        '1'
    } else if d == 2 {
        '2'
    } else if d == 3 {
        '3'
    } else if d == 4 {
        '4'
    } else if d == 5 {
        '5'
    } else if d == 6 {
        '6'
    } else if d == 7 {
        '7'
    } else if d == 8 {
        '8'
    } else {
        '9'
    }
}

/// The decimal digits of `n`.
pub fn decimal_chars(n: u128) -> (out: Vec<char>)
    ensures
        out@ == decimal(n as nat),
    decreases n,
{
    if n < 10 {
        let mut out: Vec<char> = Vec::new();
        out.push(digit_char(n));
        assert(out@ =~= decimal(n as nat));
        out
    } else {
        let mut out: Vec<char> = decimal_chars(n / 10);
        out.push(digit_char(n % 10));
        out
    }
}

/// Appends `n` in decimal digits.
pub fn push_decimal(s: &mut String, n: u64)
    ensures
        final(s)@ == old(s)@ + decimal(n as nat),
{
    let d: Vec<char> = decimal_chars(n as u128);
    push_chars(s, d.as_slice());
}

/// Appends `n` in decimal digits, at least `width` of them.
pub fn push_padded(s: &mut String, n: u64, width: usize)
    ensures
        final(s)@ == old(s)@ + zero_padded(decimal(n as nat), width as int),
{
    let d: Vec<char> = decimal_chars(n as u128);
    let ghost start = s@;
    if d.len() < width {
        let fill: usize = width - d.len();
        let mut i: usize = 0;
        while i < fill
            invariant
                i <= fill,
                s@ == start + Seq::new(i as nat, |k: int| '0'),
            decreases fill - i,
        {
            s.push('0');
            i += 1;
            assert(s@ =~= start + Seq::new(i as nat, |k: int| '0'));
        }
    }
    push_chars(s, d.as_slice());
    assert(s@ =~= start + zero_padded(decimal(n as nat), width as int));
}

/// A letter in lower case, where it is one of the 26 of ASCII.
pub open spec fn lower_of(c: char) -> char {
    if 'A' <= c && c <= 'Z' {
        ((c as u8 + 32) as u8) as char
    } else {
        c
    }
}

/// A letter in upper case, where it is one of the 26 of ASCII.
pub open spec fn upper_of(c: char) -> char {
    if 'a' <= c && c <= 'z' {
        ((c as u8 - 32) as u8) as char
    } else {
        c
    }
}

/// Text in lower case, as far as ASCII goes.
pub open spec fn lower(s: Seq<char>) -> Seq<char> {
    Seq::new(s.len(), |i: int| lower_of(s[i]))
}

/// A letter in lower case.
pub fn lower_char(c: char) -> (r: char)
    ensures
        r == lower_of(c),
{
    if 'A' <= c && c <= 'Z' {
        (c as u8 + 32) as char
    } else {
        c
    }
}

/// A letter in upper case.
pub fn upper_char(c: char) -> (r: char)
    ensures
        r == upper_of(c),
{
    if 'a' <= c && c <= 'z' {
        (c as u8 - 32) as char
    } else {
        c
    }
}

/// Text in lower case, as far as ASCII goes.
pub fn lower_chars(s: &[char]) -> (out: Vec<char>)
    ensures
        out@ == lower(s@),
{
    let mut out: Vec<char> = Vec::new();
    let mut i: usize = 0;
    while i < s.len()
        invariant
            i <= s@.len(),
            out@.len() == i,
            forall|k: int| 0 <= k < i ==> out@[k] == lower_of(s@[k]),
        decreases s@.len() - i,
    {
        out.push(lower_char(s[i]));
        i += 1;
    }
    assert(out@ =~= lower(s@));
    out
}

/// True where `p` stands in `s` at `i`.
pub open spec fn stands_at(s: Seq<char>, p: Seq<char>, i: int) -> bool {
    &&& 0 <= i
    &&& i + p.len() <= s.len()
    &&& s.subrange(i, i + p.len()) == p
}

/// True where `p` stands somewhere in `s`.
pub open spec fn holds(s: Seq<char>, p: Seq<char>) -> bool {
    exists|i: int| stands_at(s, p, i)
}

/// True where `p` stands in `s` at `i`.
pub fn is_at(s: &[char], p: &[char], i: usize) -> (r: bool)
    requires
        i <= s@.len(),
    ensures
        r == stands_at(s@, p@, i as int),
{
    if s.len() - i < p.len() {
        return false;
    }
    let mut k: usize = 0;
    while k < p.len()
        invariant
            i + p@.len() <= s.len(),
            k <= p.len(),
            forall|j: int| 0 <= j < k ==> s@[i + j] == p@[j],
        decreases p@.len() - k,
    {
        if s[i + k] != p[k] {
            assert(s@.subrange(i as int, i + p@.len())[k as int] != p@[k as int]);
            return false;
        }
        k += 1;
    }
    assert(s@.subrange(i as int, i + p@.len()) =~= p@);
    true
}

/// Where `p` first stands in `s`, at or behind `from`.
pub open spec fn first_at(s: Seq<char>, p: Seq<char>, from: int) -> Option<int>
    decreases s.len() + 1 - from,
{
    if from < 0 || from > s.len() {
        None
    } else if stands_at(s, p, from) {
        Some(from)
    } else {
        first_at(s, p, from + 1)
    }
}

/// Where `p` first stands in `s`, at or behind `from`.
pub fn find(s: &[char], p: &[char], from: usize) -> (r: Option<usize>)
    requires
        from <= s@.len(),
    ensures
        match r {
            Some(i) => first_at(s@, p@, from as int) == Some(i as int) && from <= i <= s@.len()
                && stands_at(s@, p@, i as int),
            None => first_at(s@, p@, from as int) is None,
        },
        r is None ==> forall|k: int| from <= k ==> !stands_at(s@, p@, k),
{
    let mut i: usize = from;
    loop
        invariant
            from <= i <= s@.len(),
            first_at(s@, p@, from as int) == first_at(s@, p@, i as int),
            forall|k: int| from <= k < i ==> !stands_at(s@, p@, k),
        decreases s@.len() - i,
    {
        if is_at(s, p, i) {
            return Some(i);
        }
        if i == s.len() {
            assert(first_at(s@, p@, (s@.len() + 1) as int) is None);
            return None;
        }
        i += 1;
    }
}

/// True where `p` stands somewhere in `s`.
pub fn contains(s: &[char], p: &[char]) -> (r: bool)
    ensures
        r == holds(s@, p@),
{
    find(s, p, 0).is_some()
}

/// True where the text `p` stands somewhere in `s`.
pub fn contains_text(s: &[char], p: &str) -> (r: bool)
    ensures
        r == holds(s@, p@),
{
    let p: Vec<char> = chars(p);
    contains(s, p.as_slice())
}

/// True of the characters that count as white space.
pub open spec fn is_space(c: char) -> bool {
    ||| ('\u{9}' <= c && c <= '\u{d}')
    ||| c == ' '
    ||| c == '\u{85}'
    ||| c == '\u{a0}'
    ||| c == '\u{1680}'
    ||| ('\u{2000}' <= c && c <= '\u{200a}')
    ||| c == '\u{2028}'
    ||| c == '\u{2029}'
    ||| c == '\u{202f}'
    ||| c == '\u{205f}'
    ||| c == '\u{3000}'
}

/// How much white space `s` begins with.
pub open spec fn spaces_before(s: Seq<char>, i: int) -> int
    decreases s.len() - i,
{
    if i < 0 || i >= s.len() || !is_space(s[i]) {
        i
    } else {
        spaces_before(s, i + 1)
    }
}

/// Where the white space at the end of the first `n` characters begins.
pub open spec fn spaces_behind(s: Seq<char>, n: int) -> int
    decreases n,
{
    if n <= 0 || n > s.len() || !is_space(s[n - 1]) {
        n
    } else {
        spaces_behind(s, n - 1)
    }
}

/// `s` without white space at either end.
pub open spec fn trimmed(s: Seq<char>) -> Seq<char> {
    let from = spaces_before(s, 0);
    let to = spaces_behind(s, s.len() as int);
    if from >= to {
        Seq::empty()
    } else {
        s.subrange(from, to)
    }
}

fn is_space_char(c: char) -> (r: bool)
    ensures
        r == is_space(c),
{
    ('\u{9}' <= c && c <= '\u{d}') || c == ' ' || c == '\u{85}' || c == '\u{a0}' || c == '\u{1680}'
        || ('\u{2000}' <= c && c <= '\u{200a}') || c == '\u{2028}' || c == '\u{2029}' || c
        == '\u{202f}' || c == '\u{205f}' || c == '\u{3000}'
}

/// `s` without white space at either end.
pub fn trim(s: &[char]) -> (out: Vec<char>)
    ensures
        out@ == trimmed(s@),
{
    let mut from: usize = 0;
    while from < s.len() && is_space_char(s[from])
        invariant
            from <= s@.len(),
            spaces_before(s@, 0) == spaces_before(s@, from as int),
        decreases s@.len() - from,
    {
        from += 1;
    }
    let mut to: usize = s.len();
    while to > 0 && is_space_char(s[to - 1])
        invariant
            to <= s@.len(),
            spaces_behind(s@, s@.len() as int) == spaces_behind(s@, to as int),
        decreases to,
    {
        to -= 1;
    }
    assert(spaces_before(s@, from as int) == from);
    assert(spaces_behind(s@, to as int) == to);
    let mut out: Vec<char> = Vec::new();
    let mut i: usize = from;
    while i < to
        invariant
            from <= i,
            from < to ==> i <= to,
            to <= s@.len(),
            from >= to ==> i == from,
            out@ == if from < to {
                s@.subrange(from as int, i as int)
            } else {
                Seq::empty()
            },
        decreases to - i,
    {
        out.push(s[i]);
        i += 1;
        assert(out@ =~= s@.subrange(from as int, i as int));
    }
    out
}

/// A copy of the characters from `from` up to `to`.
pub fn slice(s: &[char], from: usize, to: usize) -> (out: Vec<char>)
    requires
        from <= to <= s@.len(),
    ensures
        out@ == s@.subrange(from as int, to as int),
{
    vstd::slice::slice_to_vec(vstd::slice::slice_subrange(s, from, to))
}

/// True where two texts are the same.
pub fn same(a: &str, b: &str) -> (r: bool)
    ensures
        r == (a@ == b@),
{
    let x: Vec<char> = chars(a);
    let y: Vec<char> = chars(b);
    same_chars(x.as_slice(), y.as_slice())
}

/// True where two runs of characters are the same.
pub fn same_chars(x: &[char], y: &[char]) -> (r: bool)
    ensures
        r == (x@ == y@),
{
    if x.len() != y.len() {
        return false;
    }
    let r: bool = is_at(x, y, 0);
    assert(x@.subrange(0, x@.len() as int) =~= x@);
    r
}

/// Where `c` first stands in `s` at or behind `i`; the end where it does not.
pub open spec fn char_at(s: Seq<char>, c: char, i: int) -> int
    decreases s.len() - i,
{
    if i < 0 || i >= s.len() {
        s.len() as int
    } else if s[i] == c {
        i
    } else {
        char_at(s, c, i + 1)
    }
}

/// Where `c` first stands in `s` at or behind `from`; the end where it does not.
pub fn find_char(s: &[char], c: char, from: usize) -> (r: usize)
    requires
        from <= s@.len(),
    ensures
        r == char_at(s@, c, from as int),
        from <= r <= s@.len(),
        r < s@.len() ==> s@[r as int] == c,
{
    let mut i: usize = from;
    while i < s.len()
        invariant
            from <= i <= s@.len(),
            char_at(s@, c, from as int) == char_at(s@, c, i as int),
        decreases s@.len() - i,
    {
        if s[i] == c {
            return i;
        }
        i += 1;
    }
    i
}

/// A place in a text is behind where it is looked for, and within the text.
pub proof fn char_at_bounds(s: Seq<char>, c: char, i: int)
    requires
        0 <= i <= s.len(),
    ensures
        i <= char_at(s, c, i) <= s.len(),
    decreases s.len() - i,
{
    if i < s.len() && s[i] != c {
        char_at_bounds(s, c, i + 1);
    }
}

/// True of a decimal digit.
pub open spec fn is_digit(c: char) -> bool {
    '0' <= c && c <= '9'
}

/// The number that decimal digits stand for.
pub open spec fn digits_value(s: Seq<char>) -> int
    decreases s.len(),
{
    if s.len() == 0 {
        0
    } else {
        10 * digits_value(s.drop_last()) + (s.last() as int - '0' as int)
    }
}

/// True of one or more decimal digits.
pub open spec fn all_digits(s: Seq<char>) -> bool {
    s.len() > 0 && forall|i: int| 0 <= i < s.len() ==> is_digit(#[trigger] s[i])
}

/// A number as it is written: digits, behind a plus sign or not, up to a limit.
pub open spec fn parsed_number(s: Seq<char>, limit: int) -> Option<int> {
    let d = if s.len() > 0 && s[0] == '+' {
        s.subrange(1, s.len() as int)
    } else {
        s
    };
    if all_digits(d) && digits_value(d) <= limit {
        Some(digits_value(d))
    } else {
        None
    }
}

/// More digits make no smaller number.
proof fn digits_grow(s: Seq<char>, n: int)
    requires
        0 <= n <= s.len(),
        forall|i: int| 0 <= i < s.len() ==> is_digit(#[trigger] s[i]),
    ensures
        0 <= digits_value(s.subrange(0, n)) <= digits_value(s),
    decreases s.len(),
{
    if n < s.len() {
        assert(s.drop_last().subrange(0, n) =~= s.subrange(0, n));
        digits_grow(s.drop_last(), n);
    } else {
        assert(s.subrange(0, n) =~= s);
        if s.len() > 0 {
            digits_grow(s.drop_last(), s.len() - 1);
            assert(s.drop_last().subrange(0, s.len() - 1) =~= s.drop_last());
        }
    }
}

/// A number as it is written, up to a limit.
pub fn parse_number(s: &[char], limit: u32) -> (r: Option<u32>)
    ensures
        match r {
            Some(v) => parsed_number(s@, limit as int) == Some(v as int),
            None => parsed_number(s@, limit as int) is None,
        },
{
    let from: usize = if s.len() > 0 && s[0] == '+' {
        1
    } else {
        0
    };
    let ghost d = s@.subrange(from as int, s@.len() as int);
    assert(from == 0 ==> d =~= s@);
    if from == s.len() {
        return None;
    }
    let mut v: u64 = 0;
    let mut i: usize = from;
    assert(d.subrange(0, 0) =~= Seq::empty());
    while i < s.len()
        invariant
            from <= i <= s@.len(),
            from < s@.len(),
            d == s@.subrange(from as int, s@.len() as int),
            forall|k: int| 0 <= k < i - from ==> is_digit(#[trigger] d[k]),
            v == digits_value(d.subrange(0, i - from)),
            v <= limit,
            parsed_number(s@, limit as int) == if all_digits(d) && digits_value(d) <= limit {
                Some(digits_value(d))
            } else {
                None
            },
        decreases s@.len() - i,
    {
        let c: char = s[i];
        assert(d[i - from] == c);
        if !('0' <= c && c <= '9') {
            return None;
        }
        proof {
            assert(d.subrange(0, i + 1 - from).drop_last() =~= d.subrange(0, i - from));
        }
        v = 10 * v + (c as u64 - '0' as u64);
        i += 1;
        if v > limit as u64 {
            proof {
                if all_digits(d) {
                    digits_grow(d, i - from);
                }
            }
            return None;
        }
    }
    assert(d.subrange(0, d.len() as int) =~= d);
    Some(v as u32)
}

/// What stands behind the last of two separators, or all of a text without one.
pub open spec fn tail_of(s: Seq<char>, a: char, b: char, n: int) -> Seq<char>
    decreases n,
{
    if n <= 0 {
        s
    } else if n <= s.len() && (s[n - 1] == a || s[n - 1] == b) {
        s.subrange(n, s.len() as int)
    } else {
        tail_of(s, a, b, n - 1)
    }
}

/// What stands behind the last separator is the end of the text.
pub proof fn tail_is_part(s: Seq<char>, a: char, b: char, n: int)
    ensures
        tail_of(s, a, b, n).len() <= s.len(),
        tail_of(s, a, b, n) == s.skip(s.len() - tail_of(s, a, b, n).len()),
    decreases n,
{
    if n <= 0 {
        assert(s.skip(0) =~= s);
    } else if n <= s.len() && (s[n - 1] == a || s[n - 1] == b) {
        assert(s.subrange(n, s.len() as int) =~= s.skip(n));
    } else {
        tail_is_part(s, a, b, n - 1);
    }
}

/// What stands behind the last of two separators, or all of a text without one.
pub fn tail(s: &[char], a: char, b: char) -> (r: Vec<char>)
    ensures
        r@ == tail_of(s@, a, b, s@.len() as int),
{
    let mut n: usize = s.len();
    while n > 0
        invariant
            n <= s@.len(),
            tail_of(s@, a, b, s@.len() as int) == tail_of(s@, a, b, n as int),
        decreases n,
    {
        if s[n - 1] == a || s[n - 1] == b {
            return slice(s, n, s.len());
        }
        n -= 1;
    }
    vstd::slice::slice_to_vec(s)
}

/// A text with `by` in place of `p`, from `i` on: every place where it stands is
/// replaced, front to back.
pub open spec fn replaced(s: Seq<char>, p: Seq<char>, by: Seq<char>, i: int) -> Seq<char>
    decreases s.len() - i,
{
    if i < 0 || i >= s.len() {
        Seq::empty()
    } else if p.len() > 0 && stands_at(s, p, i) {
        by + replaced(s, p, by, i + p.len())
    } else {
        seq![s[i]] + replaced(s, p, by, i + 1)
    }
}

/// A text with `by` in place of `p`.
pub fn replace_all(s: &[char], p: &str, by: &str) -> (r: Vec<char>)
    ensures
        r@ == replaced(s@, p@, by@, 0),
{
    let p: Vec<char> = chars(p);
    let by: Vec<char> = chars(by);
    let mut r: Vec<char> = Vec::new();
    let mut i: usize = 0;
    assert(r@ + replaced(s@, p@, by@, 0) =~= replaced(s@, p@, by@, 0));
    while i < s.len()
        invariant
            i <= s@.len(),
            r@ + replaced(s@, p@, by@, i as int) == replaced(s@, p@, by@, 0),
        decreases s@.len() - i,
    {
        let ghost before = r@;
        if p.len() > 0 && is_at(s, p.as_slice(), i) {
            push_each(&mut r, by.as_slice());
            assert(before + (by@ + replaced(s@, p@, by@, i + p@.len())) =~= r@ + replaced(
                s@,
                p@,
                by@,
                i + p@.len(),
            ));
            i += p.len();
        } else {
            r.push(s[i]);
            assert(before + (seq![s@[i as int]] + replaced(s@, p@, by@, i + 1)) =~= r@ + replaced(
                s@,
                p@,
                by@,
                i + 1,
            ));
            i += 1;
        }
    }
    assert(r@ + replaced(s@, p@, by@, i as int) =~= r@);
    r
}

fn push_each(v: &mut Vec<char>, add: &[char])
    ensures
        final(v)@ == old(v)@ + add@,
{
    let mut i: usize = 0;
    assert(v@ =~= old(v)@ + add@.take(0));
    while i < add.len()
        invariant
            i <= add@.len(),
            v@ == old(v)@ + add@.take(i as int),
        decreases add@.len() - i,
    {
        v.push(add[i]);
        i += 1;
        assert(v@ =~= old(v)@ + add@.take(i as int));
    }
    assert(add@.take(i as int) =~= add@);
}

/// A text without `p`: every place where it stands is left out, front to back.
pub open spec fn without(s: Seq<char>, p: Seq<char>) -> Seq<char> {
    replaced(s, p, Seq::empty(), 0)
}

/// A text without `p`.
pub fn remove_all(s: &[char], p: &str) -> (r: Vec<char>)
    ensures
        r@ == without(s@, p@),
{
    proof {
        reveal_strlit("");
        assert(""@ =~= Seq::empty());
    }
    replace_all(s, p, "")
}

/// True where `s` begins with `p`.
pub open spec fn begins(s: Seq<char>, p: Seq<char>) -> bool {
    stands_at(s, p, 0)
}

/// True where `s` begins with `p`.
pub fn starts_with(s: &[char], p: &str) -> (r: bool)
    ensures
        r == begins(s@, p@),
{
    let p: Vec<char> = chars(p);
    is_at(s, p.as_slice(), 0)
}

/// True where `s` is `p` in any case, as far as ASCII goes.
pub fn same_in_any_case(s: &[char], p: &str) -> (r: bool)
    ensures
        r == (lower(s@) == lower(p@)),
{
    let p: Vec<char> = chars(p);
    let a: Vec<char> = lower_chars(s);
    let b: Vec<char> = lower_chars(p.as_slice());
    same_chars(a.as_slice(), b.as_slice())
}

/// True where `s` is the text `p`.
pub fn is_text(s: &[char], p: &str) -> (r: bool)
    ensures
        r == (s@ == p@),
{
    let p: Vec<char> = chars(p);
    same_chars(s, p.as_slice())
}

/// The digits of a number are digits, and stand for it.
pub proof fn decimal_stands_for(n: nat)
    ensures
        all_digits(decimal(n)),
        digits_value(decimal(n)) == n,
    decreases n,
{
    let d = decimal(n);
    if n < 10 {
        assert(d.drop_last() =~= Seq::empty());
        assert(digits_value(d.drop_last()) == 0);
    } else {
        decimal_stands_for(n / 10);
        assert(d.drop_last() =~= decimal(n / 10));
    }
}

/// A number that is written out reads back as itself.
pub proof fn numbers_read_back(n: nat, limit: int)
    requires
        n <= limit,
    ensures
        parsed_number(decimal(n), limit) == Some(n as int),
{
    decimal_stands_for(n);
}

/// A text is cut in one way only at its last separator.
pub proof fn last_cut_is_unique(
    a: Seq<char>,
    b: Seq<char>,
    c: Seq<char>,
    d: Seq<char>,
    sep: char,
)
    requires
        a + seq![sep] + b == c + seq![sep] + d,
        !b.contains(sep),
        !d.contains(sep),
    ensures
        a == c,
        b == d,
{
    let s = a + seq![sep] + b;
    let t = c + seq![sep] + d;
    assert(s.len() == t.len());
    assert(s[a.len() as int] == sep);
    assert(t[c.len() as int] == sep);
    if a.len() < c.len() {
        assert(b[c.len() - a.len() - 1] == s[c.len() as int]);
        assert(false);
    }
    if c.len() < a.len() {
        assert(d[a.len() - c.len() - 1] == t[a.len() as int]);
        assert(false);
    }
    assert(a =~= s.take(a.len() as int));
    assert(c =~= t.take(a.len() as int));
    assert(b =~= s.skip(a.len() as int + 1));
    assert(d =~= t.skip(a.len() as int + 1));
}

/// A text that neither begins nor ends with white space is not trimmed.
pub proof fn nothing_to_trim(s: Seq<char>)
    requires
        s.len() > 0,
        !is_space(s[0]),
        !is_space(s.last()),
    ensures
        trimmed(s) == s,
{
    assert(s.subrange(0, s.len() as int) =~= s);
}

} // verus!
