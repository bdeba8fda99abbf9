//! Text helpers: strings as sequences of characters.
//!
//! Strings are taken apart into `Vec<char>`, worked on there, and put together again with
//! [`push_chars`]. Contracts speak of `Seq<char>`.

use vstd::prelude::*;

verus! {

/// `String::push` appends one character to the end of the string.
pub assume_specification[ String::push ](s: &mut String, c: char)
    ensures
        final(s)@ == old(s)@.push(c),
;

/// The characters of `s`, in order.
pub fn chars_of(s: &str) -> (v: Vec<char>)
    ensures
        v@ == s@,
{
    let mut v: Vec<char> = Vec::new();
    for c in it: s.chars()
        invariant
            it.seq() == s@,
            v@ == it.seq().take(it.index() as int),
    {
        v.push(c);
    }
    v
}

/// Appends `chars[from..to]` to `out`.
pub fn push_range(out: &mut String, chars: &[char], from: usize, to: usize)
    requires
        from <= to <= chars@.len(),
    ensures
        final(out)@ == old(out)@ + chars@.subrange(from as int, to as int),
{
    let ghost start = out@;
    let mut i: usize = from;
    assert(out@ =~= start + chars@.subrange(from as int, from as int));
    while i < to
        invariant
            from <= i <= to <= chars@.len(),
            out@ == start + chars@.subrange(from as int, i as int),
        decreases to - i,
    {
        out.push(chars[i]);
        i = i + 1;
        assert(out@ =~= start + chars@.subrange(from as int, i as int));
    }
}

/// Appends all of `chars` to `out`.
pub fn push_chars(out: &mut String, chars: &[char])
    ensures
        final(out)@ == old(out)@ + chars@,
{
    push_range(out, chars, 0, chars.len());
    assert(chars@.subrange(0, chars@.len() as int) =~= chars@);
}

/// Appends the text `s` to `out`.
pub fn push_text(out: &mut String, s: &str)
    ensures
        final(out)@ == old(out)@ + s@,
{
    out.append(s);
}

/// The string whose characters are `chars`.
pub fn string_of(chars: &[char]) -> (s: String)
    ensures
        s@ == chars@,
{
    let mut s = String::new();
    push_chars(&mut s, chars);
    assert(s@ =~= chars@);
    s
}

/// An owned copy of `s`.
pub fn owned(s: &str) -> (r: String)
    ensures
        r@ == s@,
{
    s.to_owned()
}

/// Whether two character slices are equal.
pub fn chars_equal(a: &[char], b: &[char]) -> (r: bool)
    ensures
        r == (a@ == b@),
{
    if a.len() != b.len() {
        return false;
    }
    let mut i: usize = 0;
    while i < a.len()
        invariant
            i <= a@.len(),
            a@.len() == b@.len(),
            forall|k: int| 0 <= k < i ==> a@[k] == b@[k],
        decreases a@.len() - i,
    {
        if a[i] != b[i] {
            assert(a@[i as int] != b@[i as int]);
            return false;
        }
        i = i + 1;
    }
    assert(a@ =~= b@);
    true
}

/// Whether two texts hold the same characters.
pub fn text_equal(a: &str, b: &str) -> (r: bool)
    ensures
        r == (a@ == b@),
{
    let ca = chars_of(a);
    let cb = chars_of(b);
    chars_equal(&ca, &cb)
}

/// `needle` stands in `hay` at position `at`.
pub open spec fn occurs_at(hay: Seq<char>, needle: Seq<char>, at: int) -> bool {
    0 <= at && at + needle.len() <= hay.len() && hay.subrange(at, at + needle.len()) == needle
}

/// `needle` stands somewhere in `hay`.
pub open spec fn contains_seq(hay: Seq<char>, needle: Seq<char>) -> bool {
    exists|at: int| occurs_at(hay, needle, at)
}

fn matches_at(hay: &[char], needle: &[char], at: usize) -> (r: bool)
    requires
        at + needle@.len() <= hay@.len(),
    ensures
        r == occurs_at(hay@, needle@, at as int),
{
    let total: usize = hay.len();
    let mut i: usize = 0;
    while i < needle.len()
        invariant
            i <= needle@.len(),
            at + needle@.len() <= hay@.len(),
            total == hay@.len(),
            forall|k: int| 0 <= k < i ==> hay@[at + k] == needle@[k],
        decreases needle@.len() - i,
    {
        if hay[at + i] != needle[i] {
            assert(hay@.subrange(at as int, at + needle@.len())[i as int] != needle@[i as int]);
            return false;
        }
        i = i + 1;
    }
    assert(hay@.subrange(at as int, at + needle@.len()) =~= needle@);
    true
}

/// Whether `needle` stands somewhere in `hay`.
pub fn contains_chars(hay: &[char], needle: &[char]) -> (r: bool)
    ensures
        r == contains_seq(hay@, needle@),
{
    if needle.len() > hay.len() {
        return false;
    }
    let last: usize = hay.len() - needle.len();
    let mut at: usize = 0;
    loop
        invariant
            at <= last,
            last + needle@.len() == hay@.len(),
            forall|k: int| 0 <= k < at ==> !occurs_at(hay@, needle@, k),
        decreases last - at,
    {
        if matches_at(hay, needle, at) {
            return true;
        }
        if at == last {
            assert forall|k: int| !occurs_at(hay@, needle@, k) by {
                if occurs_at(hay@, needle@, k) {
                    assert(k <= last);
                }
            }
            return false;
        }
        at = at + 1;
    }
}

/// Whether the text `needle` stands somewhere in the text `hay`.
pub fn text_contains(hay: &str, needle: &str) -> (r: bool)
    ensures
        r == contains_seq(hay@, needle@),
{
    let h = chars_of(hay);
    let n = chars_of(needle);
    contains_chars(&h, &n)
}

/// `prefix` begins `s`.
pub open spec fn starts_with_seq(s: Seq<char>, prefix: Seq<char>) -> bool {
    prefix.len() <= s.len() && s.take(prefix.len() as int) == prefix
}

/// `suffix` ends `s`.
pub open spec fn ends_with_seq(s: Seq<char>, suffix: Seq<char>) -> bool {
    suffix.len() <= s.len() && s.skip(s.len() - suffix.len()) == suffix
}

/// Whether `prefix` begins `s`.
pub fn starts_with_chars(s: &[char], prefix: &[char]) -> (r: bool)
    ensures
        r == starts_with_seq(s@, prefix@),
{
    if prefix.len() > s.len() {
        return false;
    }
    proof {
        assert(s@.subrange(0, prefix@.len() as int) =~= s@.take(prefix@.len() as int));
    }
    matches_at(s, prefix, 0)
}

/// Whether `suffix` ends `s`.
pub fn ends_with_chars(s: &[char], suffix: &[char]) -> (r: bool)
    ensures
        r == ends_with_seq(s@, suffix@),
{
    if suffix.len() > s.len() {
        return false;
    }
    proof {
        let d = s@.len() - suffix@.len();
        assert(s@.subrange(d, d + suffix@.len()) =~= s@.skip(d));
    }
    matches_at(s, suffix, s.len() - suffix.len())
}

/// The code points with the Unicode `White_Space` property.
pub open spec fn white_space(c: char) -> bool {
    ||| '\u{9}' <= c <= '\u{d}'
    ||| c == ' '
    ||| c == '\u{85}'
    ||| c == '\u{a0}'
    ||| c == '\u{1680}'
    ||| '\u{2000}' <= c <= '\u{200a}'
    ||| c == '\u{2028}'
    ||| c == '\u{2029}'
    ||| c == '\u{202f}'
    ||| c == '\u{205f}'
    ||| c == '\u{3000}'
}

/// Whether `c` is white space.
pub fn is_white_space(c: char) -> (r: bool)
    ensures
        r == white_space(c),
{
    ('\u{9}' <= c && c <= '\u{d}') || c == ' ' || c == '\u{85}' || c == '\u{a0}' || c == '\u{1680}'
        || ('\u{2000}' <= c && c <= '\u{200a}') || c == '\u{2028}' || c == '\u{2029}' || c
        == '\u{202f}' || c == '\u{205f}' || c == '\u{3000}'
}

/// `s` without the white space at its start.
pub open spec fn trim_start_seq(s: Seq<char>) -> Seq<char>
    decreases s.len(),
{
    if s.len() > 0 && white_space(s[0]) {
        trim_start_seq(s.skip(1))
    } else {
        s
    }
}

/// `s` without the white space at its end.
pub open spec fn trim_end_seq(s: Seq<char>) -> Seq<char>
    decreases s.len(),
{
    if s.len() > 0 && white_space(s.last()) {
        trim_end_seq(s.drop_last())
    } else {
        s
    }
}

/// `s` without the white space around it.
pub open spec fn trim_seq(s: Seq<char>) -> Seq<char> {
    trim_end_seq(trim_start_seq(s))
}

/// Trimming takes white space off the ends and nothing else: without its start, a text is one of
/// its own tails, everything before it is white space, and it does not start with any; the same
/// holds of its end.
pub proof fn trimming_strips_the_ends(s: Seq<char>)
    ensures
        ({
            let t = trim_start_seq(s);
            let from = s.len() - t.len();
            &&& t.len() <= s.len()
            &&& t == s.skip(from)
            &&& forall|i: int| 0 <= i < from ==> white_space(#[trigger] s[i])
            &&& t.len() > 0 ==> !white_space(t[0])
        }),
        ({
            let t = trim_end_seq(s);
            &&& t.len() <= s.len()
            &&& t == s.take(t.len() as int)
            &&& forall|i: int| t.len() <= i < s.len() ==> white_space(#[trigger] s[i])
            &&& t.len() > 0 ==> !white_space(t.last())
        }),
    decreases s.len(),
{
    if s.len() > 0 && white_space(s[0]) {
        trimming_strips_the_ends(s.skip(1));
        let t = trim_start_seq(s.skip(1));
        let from = s.len() - t.len();
        assert(s.skip(1).skip(from - 1) =~= s.skip(from));
        assert forall|i: int| 0 <= i < from implies white_space(#[trigger] s[i]) by {
            if i > 0 {
                assert(s.skip(1)[i - 1] == s[i]);
            }
        }
    } else {
        assert(s.skip(0) =~= s);
    }
    if s.len() > 0 && white_space(s.last()) {
        trimming_strips_the_ends(s.drop_last());
        let t = trim_end_seq(s.drop_last());
        assert(s.drop_last().take(t.len() as int) =~= s.take(t.len() as int));
        assert forall|i: int| t.len() <= i < s.len() implies white_space(#[trigger] s[i]) by {
            if i < s.len() - 1 {
                assert(s.drop_last()[i] == s[i]);
            }
        }
    } else {
        assert(s.take(s.len() as int) =~= s);
    }
}

/// What is not white space survives trimming: a text that ends in something else keeps its end,
/// one that starts with something else keeps its start, and one that does both stays as it is.
pub proof fn trimming_keeps_solid_ends(s: Seq<char>)
    requires
        s.len() > 0,
    ensures
        !white_space(s.last()) ==> trim_seq(s).len() > 0 && trim_seq(s).last() == s.last(),
        !white_space(s[0]) ==> trim_seq(s).len() > 0 && trim_seq(s)[0] == s[0],
        !white_space(s[0]) && !white_space(s.last()) ==> trim_seq(s) == s,
{
    trimming_strips_the_ends(s);
    let t = trim_start_seq(s);
    trimming_strips_the_ends(t);
    if !white_space(s.last()) {
        if t.len() == 0 {
            assert(white_space(s[s.len() - 1]));
        }
        assert(t.last() == s.last());
    }
    if !white_space(s[0]) {
        assert(trim_end_seq(t).len() > 0) by {
            if trim_end_seq(t).len() == 0 {
                assert(white_space(t[0]));
            }
        }
    }
}

/// The position of the first character of `s` that is not white space, or its length.
pub fn skip_white(s: &[char]) -> (i: usize)
    ensures
        i <= s@.len(),
        trim_start_seq(s@) == s@.skip(i as int),
{
    let mut i: usize = 0;
    assert(s@.skip(0) =~= s@);
    while i < s.len() && is_white_space(s[i])
        invariant
            i <= s@.len(),
            trim_start_seq(s@) == trim_start_seq(s@.skip(i as int)),
        decreases s@.len() - i,
    {
        assert(s@.skip(i as int)[0] == s@[i as int]);
        assert(s@.skip(i as int).skip(1) =~= s@.skip(i + 1));
        i = i + 1;
    }
    if i < s.len() {
        assert(s@.skip(i as int)[0] == s@[i as int]);
    }
    i
}

/// The characters of `s` without the white space at its start.
pub fn trim_start_chars(s: &[char]) -> (r: Vec<char>)
    ensures
        r@ == trim_start_seq(s@),
{
    let from: usize = skip_white(s);
    copy_range(s, from, s.len())
}

/// A copy of `s[from..to]`.
pub fn copy_range(s: &[char], from: usize, to: usize) -> (r: Vec<char>)
    requires
        from <= to <= s@.len(),
    ensures
        r@ == s@.subrange(from as int, to as int),
{
    let mut r: Vec<char> = Vec::new();
    let mut i: usize = from;
    while i < to
        invariant
            from <= i <= to <= s@.len(),
            r@ == s@.subrange(from as int, i as int),
        decreases to - i,
    {
        r.push(s[i]);
        i = i + 1;
        assert(r@ =~= s@.subrange(from as int, i as int));
    }
    r
}

/// The characters of `s` without the white space around it.
pub fn trim_chars(s: &[char]) -> (r: Vec<char>)
    ensures
        r@ == trim_seq(s@),
{
    let from: usize = skip_white(s);
    let mut to: usize = s.len();
    let ghost t = s@.skip(from as int);
    assert(t =~= s@.subrange(from as int, to as int));
    while to > from && is_white_space(s[to - 1])
        invariant
            from <= to <= s@.len(),
            t == trim_start_seq(s@),
            trim_end_seq(t) == trim_end_seq(s@.subrange(from as int, to as int)),
        decreases to - from,
    {
        let ghost u = s@.subrange(from as int, to as int);
        assert(u.last() == s@[to - 1]);
        assert(u.drop_last() =~= s@.subrange(from as int, to - 1));
        to = to - 1;
    }
    proof {
        let u = s@.subrange(from as int, to as int);
        if to > from {
            assert(u.last() == s@[to - 1]);
        }
    }
    copy_range(s, from, to)
}

/// The lower-case form of an ASCII letter; any other character unchanged.
pub open spec fn ascii_lower(c: char) -> char {
    if 'A' <= c <= 'Z' {
        (c as u32 + 32) as char
    } else {
        c
    }
}

/// `s` with its ASCII letters in lower case.
pub open spec fn ascii_lower_seq(s: Seq<char>) -> Seq<char> {
    Seq::new(s.len(), |i: int| ascii_lower(s[i]))
}

/// The lower-case form of an ASCII letter; any other character unchanged.
pub fn to_ascii_lower(c: char) -> (r: char)
    ensures
        r == ascii_lower(c),
{
    if 'A' <= c && c <= 'Z' {
        let code: u8 = c as u8;
        (code + 32) as char
    } else {
        c
    }
}

/// `s` with its ASCII letters in lower case.
pub fn ascii_lower_chars(s: &[char]) -> (r: Vec<char>)
    ensures
        r@ == ascii_lower_seq(s@),
{
    let mut r: Vec<char> = Vec::new();
    let mut i: usize = 0;
    while i < s.len()
        invariant
            i <= s@.len(),
            r@ == ascii_lower_seq(s@).take(i as int),
        decreases s@.len() - i,
    {
        r.push(to_ascii_lower(s[i]));
        i = i + 1;
        assert(r@ =~= ascii_lower_seq(s@).take(i as int));
    }
    assert(ascii_lower_seq(s@).take(s@.len() as int) =~= ascii_lower_seq(s@));
    r
}

/// The decimal digit of `d`.
pub open spec fn digit_char(d: int) -> char {
    ('0' as u32 + d) as char
}

/// `n` in decimal notation, without leading zeros.
pub open spec fn decimal(n: nat) -> Seq<char>
    decreases n,
{
    if n < 10 {
        seq![digit_char(n as int)]
    } else {
        decimal(n / 10).push(digit_char((n % 10) as int))
    }
}

/// Appends `n` in decimal notation to `out`.
pub fn push_decimal(out: &mut String, n: u64)
    ensures
        final(out)@ == old(out)@ + decimal(n as nat),
    decreases n,
{
    let ghost start = out@;
    if n >= 10 {
        push_decimal(out, n / 10);
    }
    let d: u8 = (n % 10) as u8;
    out.push((48u8 + d) as char);
    assert(out@ =~= start + decimal(n as nat));
}

/// The value of an ASCII decimal digit.
pub open spec fn digit_value(c: char) -> Option<int> {
    if '0' <= c <= '9' {
        Some(c as int - '0' as int)
    } else {
        None
    }
}

/// The number that a sequence of decimal digits denotes; `None` if some character is no digit.
/// The empty sequence denotes nothing added to `0`.
pub open spec fn digits_value(s: Seq<char>) -> Option<nat>
    decreases s.len(),
{
    if s.len() == 0 {
        Some(0)
    } else {
        match (digits_value(s.drop_last()), digit_value(s.last())) {
            (Some(v), Some(d)) => Some((v * 10 + d) as nat),
            _ => None,
        }
    }
}

/// The unsigned number that `s` denotes: an optional `+`, then at least one decimal digit and
/// nothing else, with a value of at most `max`.
pub open spec fn parse_unsigned(s: Seq<char>, max: nat) -> Option<nat> {
    let body = if s.len() > 0 && s[0] == '+' {
        s.skip(1)
    } else {
        s
    };
    if body.len() == 0 {
        None
    } else {
        match digits_value(body) {
            Some(v) => if v <= max {
                Some(v)
            } else {
                None
            },
            None => None,
        }
    }
}

proof fn lemma_digits_value_prefix(s: Seq<char>, i: int)
    requires
        0 <= i <= s.len(),
    ensures
        digits_value(s.take(i)) is None ==> digits_value(s) is None,
        digits_value(s.take(i)) is Some && digits_value(s) is Some ==> digits_value(s.take(i))->0
            <= digits_value(s)->0,
    decreases s.len() - i,
{
    if i < s.len() {
        assert(s.take(i + 1).drop_last() =~= s.take(i));
        lemma_digits_value_prefix(s, i + 1);
    } else {
        assert(s.take(i) =~= s);
    }
}

/// The number denoted by `s`, at most `max`; see [`parse_unsigned`].
pub fn parse_unsigned_chars(s: &[char], max: u64) -> (r: Option<u64>)
    ensures
        match r {
            Some(v) => parse_unsigned(s@, max as nat) == Some(v as nat),
            None => parse_unsigned(s@, max as nat) is None,
        },
{
    let from: usize = if s.len() > 0 && s[0] == '+' {
        1
    } else {
        0
    };
    let ghost body = s@.skip(from as int);
    assert(s@.skip(0) =~= s@);
    if s.len() == from {
        return None;
    }
    let mut v: u64 = 0;
    let mut i: usize = from;
    assert(body.take(0) =~= Seq::<char>::empty());
    while i < s.len()
        invariant
            from <= i <= s@.len(),
            from < s@.len(),
            from == (if s@[0] == '+' {
                1int
            } else {
                0int
            }),
            body == s@.skip(from as int),
            body.len() > 0,
            digits_value(body.take(i - from)) == Some(v as nat),
            v <= max,
            parse_unsigned(s@, max as nat) == (match digits_value(body) {
                Some(w) => if w <= max {
                    Some(w)
                } else {
                    None
                },
                None => None,
            }),
        decreases s@.len() - i,
    {
        let c = s[i];
        let ghost next = body.take(i - from + 1);
        proof {
            assert(next.drop_last() =~= body.take(i - from));
            assert(next.last() == c);
            lemma_digits_value_prefix(body, i - from + 1);
        }
        if !('0' <= c && c <= '9') {
            return None;
        }
        let d: u64 = (c as u8 - 48u8) as u64;
        let wide: u128 = v as u128 * 10 + d as u128;
        if wide > max as u128 {
            return None;
        }
        v = wide as u64;
        i = i + 1;
    }
    assert(body.take(s@.len() - from) =~= body);
    Some(v)
}

/// Reading back what was written: the decimal notation of a number denotes that number.
pub proof fn decimal_reads_back(n: nat, max: nat)
    requires
        n <= max,
    ensures
        parse_unsigned(decimal(n), max) == Some(n),
{
    lemma_decimal_digits(n);
}

proof fn lemma_decimal_digits(n: nat)
    ensures
        digits_value(decimal(n)) == Some(n),
        decimal(n).len() > 0,
        forall|i: int| 0 <= i < decimal(n).len() ==> '0' <= #[trigger] decimal(n)[i] <= '9',
    decreases n,
{
    reveal_with_fuel(digits_value, 2);
    if n >= 10 {
        lemma_decimal_digits(n / 10);
        assert(decimal(n).drop_last() =~= decimal(n / 10));
    } else {
        assert(decimal(n).drop_last() =~= Seq::<char>::empty());
    }
}

/// `a` comes before `b` in the order of their characters.
pub open spec fn lex_less(a: Seq<char>, b: Seq<char>) -> bool
    decreases a.len(),
{
    if b.len() == 0 {
        false
    } else if a.len() == 0 {
        true
    } else if a[0] == b[0] {
        lex_less(a.skip(1), b.skip(1))
    } else {
        a[0] < b[0]
    }
}

/// Whether `a` comes before `b` in the order of their characters.
pub fn chars_less(a: &[char], b: &[char]) -> (r: bool)
    ensures
        r == lex_less(a@, b@),
{
    let mut i: usize = 0;
    assert(a@.skip(0) =~= a@);
    assert(b@.skip(0) =~= b@);
    while i < a.len() && i < b.len()
        invariant
            i <= a@.len(),
            i <= b@.len(),
            lex_less(a@, b@) == lex_less(a@.skip(i as int), b@.skip(i as int)),
        decreases a@.len() - i,
    {
        proof {
            assert(a@.skip(i as int)[0] == a@[i as int]);
            assert(b@.skip(i as int)[0] == b@[i as int]);
            assert(a@.skip(i as int).skip(1) =~= a@.skip(i + 1));
            assert(b@.skip(i as int).skip(1) =~= b@.skip(i + 1));
        }
        if a[i] != b[i] {
            return a[i] < b[i];
        }
        i = i + 1;
    }
    i < b.len()
}

/// The order of texts is irreflexive and total, and it is transitive.
pub proof fn lex_less_is_a_strict_order(a: Seq<char>, b: Seq<char>, c: Seq<char>)
    ensures
        !lex_less(a, a),
        a != b ==> lex_less(a, b) || lex_less(b, a),
        !(lex_less(a, b) && lex_less(b, a)),
        lex_less(a, b) && lex_less(b, c) ==> lex_less(a, c),
        !lex_less(b, a) && !lex_less(c, b) ==> !lex_less(c, a),
    decreases a.len() + b.len() + c.len(),
{
    if a.len() > 0 {
        lex_less_is_a_strict_order(a.skip(1), a.skip(1).take(0), a.skip(1).take(0));
    }
    if a.len() > 0 && b.len() > 0 && c.len() > 0 {
        lex_less_is_a_strict_order(a.skip(1), b.skip(1), c.skip(1));
    }
    if a.len() > 0 && b.len() > 0 {
        lex_less_is_a_strict_order(a.skip(1), b.skip(1), Seq::empty());
        if a[0] == b[0] && a.skip(1) == b.skip(1) {
            assert(a =~= seq![a[0]] + a.skip(1));
            assert(b =~= seq![b[0]] + b.skip(1));
        }
    }
    if a.len() == 0 && b.len() == 0 {
        assert(a =~= b);
    }
}

/// A number that is a character's code point.
pub open spec fn is_scalar_value(n: u32) -> bool {
    n <= 0xd7ff || 0xe000 <= n <= 0x10ffff
}

/// `char::from_u32` gives the character with the code point `i`, if there is one.
pub assume_specification[ char::from_u32 ](i: u32) -> (r: Option<char>)
    ensures
        r is Some == is_scalar_value(i),
        r matches Some(c) ==> c == i as char,
;

/// One half of a surrogate pair.
pub open spec fn is_surrogate(u: u16) -> bool {
    0xd800 <= u <= 0xdfff
}

/// The code point of a surrogate pair.
pub open spec fn pair_value(high: u16, low: u16) -> int {
    0x10000 + (high - 0xd800) * 0x400 + (low - 0xdc00)
}

/// The text that UTF-16 code units stand for. A half of a surrogate pair that stands alone is
/// read as the replacement character.
pub open spec fn decode_utf16(units: Seq<u16>) -> Seq<char>
    decreases units.len(),
{
    if units.len() == 0 {
        Seq::empty()
    } else if !is_surrogate(units[0]) {
        seq![units[0] as char] + decode_utf16(units.skip(1))
    } else if units[0] <= 0xdbff && units.len() >= 2 && 0xdc00 <= units[1] <= 0xdfff {
        seq![pair_value(units[0], units[1]) as char] + decode_utf16(units.skip(2))
    } else {
        seq!['\u{fffd}'] + decode_utf16(units.skip(1))
    }
}

/// See [`decode_utf16`].
pub fn text_of_utf16(units: &[u16]) -> (s: String)
    ensures
        s@ == decode_utf16(units@),
{
    let mut s = String::new();
    let mut i: usize = 0;
    assert(units@.skip(0) =~= units@);
    assert(s@ + decode_utf16(units@) =~= decode_utf16(units@));
    while i < units.len()
        invariant
            i <= units@.len(),
            s@ + decode_utf16(units@.skip(i as int)) == decode_utf16(units@),
        decreases units@.len() - i,
    {
        let ghost rest = units@.skip(i as int);
        let ghost before = s@;
        let u: u16 = units[i];
        let mut step: usize = 1;
        let mut code: u32 = 0xfffd;
        if !(0xd800 <= u && u <= 0xdfff) {
            code = u as u32;
        } else if u <= 0xdbff && i + 1 < units.len() && 0xdc00 <= units[i + 1] && units[i + 1]
            <= 0xdfff {
            code = 0x10000 + (u as u32 - 0xd800) * 0x400 + (units[i + 1] as u32 - 0xdc00);
            step = 2;
        }
        let c = match char::from_u32(code) {
            Some(c) => c,
            None => '\u{fffd}',
        };
        s.push(c);
        proof {
            assert(rest[0] == u);
            assert(rest.skip(1) =~= units@.skip(i + 1));
            if i + 1 < units@.len() {
                assert(rest[1] == units@[i + 1]);
                assert(rest.skip(2) =~= units@.skip(i + 2));
            }
            if !is_surrogate(u) {
                assert(c == u as char);
            } else if step == 2 {
                assert(code == pair_value(rest[0], rest[1]));
                assert(c == pair_value(rest[0], rest[1]) as char);
            } else {
                assert(c == '\u{fffd}');
            }
            assert(decode_utf16(rest) =~= seq![c] + decode_utf16(units@.skip(i + step)));
            assert(s@ + decode_utf16(units@.skip(i + step)) =~= before + decode_utf16(rest));
        }
        i = i + step;
    }
    assert(s@ + decode_utf16(units@.skip(i as int)) =~= s@);
    s
}

/// The part of `units` before the first zero.
pub open spec fn until_nul(units: Seq<u16>) -> Seq<u16>
    decreases units.len(),
{
    if units.len() == 0 || units[0] == 0 {
        Seq::empty()
    } else {
        seq![units[0]] + until_nul(units.skip(1))
    }
}

/// The text in a buffer of UTF-16 code units: everything up to the first zero, or all of it.
pub fn wide_cstr_to_string(raw: &[u16]) -> (s: String)
    ensures
        s@ == decode_utf16(until_nul(raw@)),
{
    let mut head: Vec<u16> = Vec::new();
    let mut i: usize = 0;
    assert(raw@.skip(0) =~= raw@);
    assert(head@ + until_nul(raw@) =~= until_nul(raw@));
    while i < raw.len() && raw[i] != 0
        invariant
            i <= raw@.len(),
            head@ + until_nul(raw@.skip(i as int)) == until_nul(raw@),
        decreases raw@.len() - i,
    {
        let ghost before = head@;
        let ghost rest = raw@.skip(i as int);
        head.push(raw[i]);
        proof {
            assert(rest[0] == raw@[i as int]);
            assert(rest.skip(1) =~= raw@.skip(i + 1));
            assert(head@ + until_nul(raw@.skip(i + 1)) =~= before + until_nul(rest));
        }
        i = i + 1;
    }
    proof {
        let rest = raw@.skip(i as int);
        if i < raw@.len() {
            assert(rest[0] == raw@[i as int]);
        }
        assert(until_nul(rest) =~= Seq::<u16>::empty());
        assert(head@ =~= until_nul(raw@));
    }
    text_of_utf16(head.as_slice())
}

/// The lower-case hexadecimal digit of `d`.
pub open spec fn hex_digit(d: int) -> char {
    if d < 10 {
        ('0' as u32 + d) as char
    } else {
        ('a' as u32 + (d - 10)) as char
    }
}

/// `n` in hexadecimal notation with exactly `width` digits (the lowest ones).
pub open spec fn hex_padded(n: nat, width: nat) -> Seq<char>
    decreases width,
{
    if width == 0 {
        Seq::empty()
    } else {
        hex_padded(n / 16, (width - 1) as nat).push(hex_digit((n % 16) as int))
    }
}

/// Appends `n` in hexadecimal notation with `width` digits to `out`.
pub fn push_hex_padded(out: &mut String, n: u64, width: u32)
    ensures
        final(out)@ == old(out)@ + hex_padded(n as nat, width as nat),
    decreases width,
{
    let ghost start = out@;
    if width == 0 {
        assert(out@ =~= start + hex_padded(n as nat, 0));
        return;
    }
    push_hex_padded(out, n / 16, width - 1);
    let d: u8 = (n % 16) as u8;
    let c = if d < 10 {
        (48u8 + d) as char
    } else {
        (97u8 + (d - 10)) as char
    };
    out.push(c);
    assert(out@ =~= start + hex_padded(n as nat, width as nat));
}

/// The position of the last `c` in `s`.
pub open spec fn last_position(s: Seq<char>, c: char) -> Option<int>
    decreases s.len(),
{
    if s.len() == 0 {
        None
    } else if s.last() == c {
        Some(s.len() - 1)
    } else {
        last_position(s.drop_last(), c)
    }
}

/// The position of the last `c` in `s`.
pub fn rfind(s: &[char], c: char) -> (r: Option<usize>)
    ensures
        match r {
            Some(i) => last_position(s@, c) == Some(i as int) && i < s@.len() && s@[i as int] == c,
            None => last_position(s@, c) is None,
        },
{
    let mut n: usize = s.len();
    assert(s@.take(n as int) =~= s@);
    while n > 0
        invariant
            n <= s@.len(),
            last_position(s@, c) == last_position(s@.take(n as int), c),
        decreases n,
    {
        let ghost t = s@.take(n as int);
        assert(t.last() == s@[n - 1]);
        assert(t.drop_last() =~= s@.take(n - 1));
        if s[n - 1] == c {
            return Some(n - 1);
        }
        n = n - 1;
    }
    None
}

/// What the last position of a character is.
pub proof fn lemma_last_position(s: Seq<char>, c: char)
    ensures
        last_position(s, c) matches Some(at) ==> 0 <= at < s.len() && s[at] == c && forall|i: int|
            at < i < s.len() ==> s[i] != c,
        last_position(s, c) is None ==> forall|i: int| 0 <= i < s.len() ==> s[i] != c,
    decreases s.len(),
{
    if s.len() > 0 && s.last() != c {
        lemma_last_position(s.drop_last(), c);
        assert forall|i: int| 0 <= i < s.len() - 1 implies #[trigger] s[i] == s.drop_last()[i] by {}
    }
}

/// A position with nothing of the kind behind it is the last one.
pub proof fn lemma_last_position_is(s: Seq<char>, c: char, at: int)
    requires
        0 <= at < s.len(),
        s[at] == c,
        forall|i: int| at < i < s.len() ==> s[i] != c,
    ensures
        last_position(s, c) == Some(at),
{
    lemma_last_position(s, c);
}

/// The bytes that a character takes in UTF-8.
pub open spec fn utf8_width(c: char) -> nat {
    if (c as u32) < 0x80 {
        1
    } else if (c as u32) < 0x800 {
        2
    } else if (c as u32) < 0x1_0000 {
        3
    } else {
        4
    }
}

/// The bytes that a text takes in UTF-8.
pub open spec fn utf8_len(s: Seq<char>) -> nat
    decreases s.len(),
{
    if s.len() == 0 {
        0
    } else {
        utf8_len(s.drop_last()) + utf8_width(s.last())
    }
}

/// Whether a text takes exactly `n` bytes in UTF-8.
pub fn takes_bytes(s: &[char], n: u32) -> (r: bool)
    ensures
        r == (utf8_len(s@) == n),
{
    let mut total: u64 = 0;
    let mut i: usize = 0;
    while i < s.len()
        invariant
            i <= s@.len(),
            total == utf8_len(s@.take(i as int)),
            total <= n,
        decreases s@.len() - i,
    {
        let c: u32 = s[i] as u32;
        let width: u64 = if c < 0x80 {
            1
        } else if c < 0x800 {
            2
        } else if c < 0x1_0000 {
            3
        } else {
            4
        };
        proof {
            assert(s@.take(i + 1).drop_last() =~= s@.take(i as int));
            assert(s@.take(i + 1).last() == s@[i as int]);
        }
        total = total + width;
        i = i + 1;
        if total > n as u64 {
            proof {
                lemma_utf8_len_grows(s@, i as int);
            }
            return false;
        }
    }
    assert(s@.take(i as int) =~= s@);
    total == n as u64
}

proof fn lemma_utf8_len_grows(s: Seq<char>, i: int)
    requires
        0 <= i <= s.len(),
    ensures
        utf8_len(s.take(i)) <= utf8_len(s),
    decreases s.len(),
{
    if i == s.len() {
        assert(s.take(i) =~= s);
    } else {
        assert(s.drop_last().take(i) =~= s.take(i));
        lemma_utf8_len_grows(s.drop_last(), i);
    }
}

/// The text that `{:?}` gives for a text.
pub uninterp spec fn debug_of(s: Seq<char>) -> Seq<char>;

/// `<str as std::fmt::Debug>::fmt`, through `format!`: the text in double quotes, with what
/// cannot be printed escaped. Which characters these are is a matter of the standard library's
/// tables, so the result only has a name.
#[verifier::external_body]
pub(crate) fn debug_text(s: &str) -> (r: String)
    ensures
        r@ == debug_of(s@),
{
    format!("{:?}", s)
}

/// A number in hexadecimal has as many digits as asked for, each one of `0` to `9` and `a` to `f`.
pub proof fn hexadecimal_has_its_width(n: nat, width: nat)
    ensures
        hex_padded(n, width).len() == width,
        forall|i: int|
            0 <= i < width ==> ('0' <= #[trigger] hex_padded(n, width)[i] <= '9' || 'a'
                <= hex_padded(n, width)[i] <= 'f'),
    decreases width,
{
    if width > 0 {
        hexadecimal_has_its_width(n / 16, (width - 1) as nat);
    }
}

/// Other numbers have other digits: two numbers with the same digits are the same, as far as the
/// digits go.
pub proof fn hexadecimal_tells_numbers_apart(a: nat, b: nat, width: nat)
    requires
        hex_padded(a, width) == hex_padded(b, width),
    ensures
        a % vstd::arithmetic::power::pow(16, width) as nat == b % vstd::arithmetic::power::pow(
            16,
            width,
        ) as nat,
    decreases width,
{
    reveal(vstd::arithmetic::power::pow);
    if width > 0 {
        let x = hex_padded(a, width);
        let y = hex_padded(b, width);
        let less = (width - 1) as nat;
        hexadecimal_has_its_width(a / 16, less);
        hexadecimal_has_its_width(b / 16, less);
        assert(x.drop_last() =~= hex_padded(a / 16, less));
        assert(y.drop_last() =~= hex_padded(b / 16, less));
        hexadecimal_tells_numbers_apart(a / 16, b / 16, less);
        assert(x.last() == y.last());
        assert(a % 16 == b % 16);
        let p = vstd::arithmetic::power::pow(16, less);
        vstd::arithmetic::power::lemma_pow_positive(16, less);
        assert(vstd::arithmetic::power::pow(16, width) == 16 * p);
        vstd::arithmetic::div_mod::lemma_mod_breakdown(a as int, 16, p);
        vstd::arithmetic::div_mod::lemma_mod_breakdown(b as int, 16, p);
    }
}

/// A text of ASCII characters takes a byte for each.
pub proof fn plain_text_has_a_byte_each(s: Seq<char>)
    requires
        forall|i: int| 0 <= i < s.len() ==> (#[trigger] s[i] as u32) < 0x80,
    ensures
        utf8_len(s) == s.len(),
    decreases s.len(),
{
    if s.len() > 0 {
        plain_text_has_a_byte_each(s.drop_last());
        assert((s[s.len() - 1] as u32) < 0x80);
    }
}

/// A number in decimal has digits only.
pub proof fn decimal_has_digits_only(n: nat)
    ensures
        decimal(n).len() > 0,
        forall|i: int| 0 <= i < decimal(n).len() ==> '0' <= #[trigger] decimal(n)[i] <= '9',
    decreases n,
{
    if n >= 10 {
        decimal_has_digits_only(n / 10);
    }
}

/// Lower case moves the capitals `A` to `Z` and nothing else, and leaves what it gives as it is.
pub proof fn lower_case_moves_capitals_only(c: char)
    ensures
        'A' <= c <= 'Z' ==> 'a' <= ascii_lower(c) <= 'z' && ascii_lower(c) as int == c as int + 32,
        !('A' <= c <= 'Z') ==> ascii_lower(c) == c,
        ascii_lower(ascii_lower(c)) == ascii_lower(c),
{
}

/// A text starts with its beginning, ends with its end, and contains what stands between them;
/// and one that contains another is that other with something before and behind it.
pub proof fn parts_of_a_text_are_found(before: Seq<char>, part: Seq<char>, after: Seq<char>)
    ensures
        starts_with_seq(part + after, part),
        ends_with_seq(before + part, part),
        contains_seq(before + part + after, part),
{
    assert((part + after).take(part.len() as int) =~= part);
    assert((before + part).skip((before + part).len() - part.len()) =~= part);
    let whole = before + part + after;
    assert(whole.subrange(before.len() as int, (before.len() + part.len()) as int) =~= part);
    assert(occurs_at(whole, part, before.len() as int));
}

/// What is found in a text stands in it: a text that contains another is made of something, that
/// other, and something; one that starts or ends with another is made of that and something.
pub proof fn what_is_found_stands_there(whole: Seq<char>, part: Seq<char>)
    ensures
        starts_with_seq(whole, part) ==> whole == part + whole.skip(part.len() as int),
        ends_with_seq(whole, part) ==> whole == whole.take(whole.len() - part.len()) + part,
        contains_seq(whole, part) ==> exists|at: int|
            0 <= at <= whole.len() - part.len() && whole == #[trigger] whole.take(at) + part
                + whole.skip(at + part.len()),
{
    if starts_with_seq(whole, part) {
        assert(whole =~= part + whole.skip(part.len() as int));
    }
    if ends_with_seq(whole, part) {
        assert(whole =~= whole.take(whole.len() - part.len()) + part);
    }
    if contains_seq(whole, part) {
        let at = choose|at: int| occurs_at(whole, part, at);
        let found = whole.subrange(at, at + part.len());
        assert(found == part);
        assert(whole =~= whole.take(at) + found + whole.skip(at + part.len()));
    }
}

/// Of two different texts one comes first: a text before every longer one that starts with it, and
/// otherwise the one with the lower character where they first differ.
pub proof fn the_first_difference_decides(a: Seq<char>, b: Seq<char>, n: int)
    requires
        0 <= n <= a.len(),
        n <= b.len(),
        forall|i: int| 0 <= i < n ==> #[trigger] a[i] == b[i],
    ensures
        n == a.len() && n < b.len() ==> lex_less(a, b),
        n == b.len() ==> !lex_less(a, b),
        n < a.len() && n < b.len() && a[n] != b[n] ==> lex_less(a, b) == (a[n] < b[n]),
    decreases n,
{
    if n > 0 {
        let x = a.skip(1);
        let y = b.skip(1);
        assert(a[0] == b[0]);
        assert forall|i: int| 0 <= i < n - 1 implies #[trigger] x[i] == y[i] by {
            assert(a[i + 1] == b[i + 1]);
        }
        the_first_difference_decides(x, y, n - 1);
    }
}

/// A text up to its first zero holds none, and is all of the text where there is none.
pub proof fn a_zero_ends_a_text(units: Seq<u16>)
    ensures
        until_nul(units).len() <= units.len(),
        until_nul(units) == units.take(until_nul(units).len() as int),
        forall|i: int| 0 <= i < until_nul(units).len() ==> #[trigger] units[i] != 0,
        until_nul(units).len() < units.len() ==> units[until_nul(units).len() as int] == 0,
    decreases units.len(),
{
    if units.len() > 0 && units[0] != 0 {
        let rest = units.skip(1);
        a_zero_ends_a_text(rest);
        let n = until_nul(rest).len();
        assert(until_nul(units) =~= units.take((n + 1) as int));
        assert forall|i: int| 0 <= i < n + 1 implies #[trigger] units[i] != 0 by {
            if i > 0 {
                assert(rest[i - 1] == units[i]);
            }
        }
        if n < rest.len() {
            assert(rest[n as int] == units[n + 1int]);
        }
    } else {
        assert(until_nul(units) =~= units.take(0));
    }
}

/// Characters read back from their code units: one unit is the character with its number, two
/// halves of a pair are the character beyond those that they encode; and texts are read one
/// character after the other.
pub proof fn characters_read_back(c: char, rest: Seq<u16>, high: u16, low: u16)
    requires
        (c as int) < 0x1_0000 || (0xd800 <= high <= 0xdbff && 0xdc00 <= low <= 0xdfff && c as int
            - 0x1_0000 == (high - 0xd800) * 0x400 + (low - 0xdc00)),
    ensures
        (c as int) < 0x1_0000 ==> decode_utf16(seq![c as u16] + rest) == seq![c] + decode_utf16(
            rest,
        ),
        (c as int) >= 0x1_0000 ==> decode_utf16(seq![high, low] + rest) == seq![c] + decode_utf16(
            rest,
        ),
{
    if (c as int) < 0x1_0000 {
        let units = seq![c as u16] + rest;
        assert(units.skip(1) =~= rest);
        assert(!is_surrogate(c as u16));
    } else {
        let units = seq![high, low] + rest;
        assert(units.skip(2) =~= rest);
        assert(units[0] == high && units[1] == low);
    }
}

} // verus!
