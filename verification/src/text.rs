//! Text helpers: decimal rendering, suffix tests and line splitting.

use vstd::prelude::*;

verus! {

/// The character that stands for a single decimal digit.
pub open spec fn digit_char(d: nat) -> char {
    if d == 0 {
        '0'
    } else if d == 1 {
        '1'
    } else if d == 2 {
        '2'
    } else if d == 3 {
        '3'
    } else if d == 4 {
        '4'
    } else if d == 5 {
        '5'
    } else if d == 6 {
        '6'
    } else if d == 7 {
        '7'
    } else if d == 8 {
        '8'
    } else {
        '9'
    }
}

/// Decimal rendering of a natural number, most significant digit first,
/// without leading zeros.
pub open spec fn decimal(n: nat) -> Seq<char>
    decreases n,
{
    if n < 10 {
        seq![digit_char(n)]
    } else {
        decimal(n / 10).push(digit_char(n % 10))
    }
}

fn digit_text(d: u64) -> (s: &'static str)
    requires
        d < 10,
    ensures
        s@ == seq![digit_char(d as nat)],
{
    proof {
        reveal_strlit("0");
        reveal_strlit("1");
        reveal_strlit("2");
        reveal_strlit("3");
        reveal_strlit("4");
        reveal_strlit("5");
        reveal_strlit("6");
        reveal_strlit("7");
        reveal_strlit("8");
        reveal_strlit("9");
    }
    let s = if d == 0 {
        "0"
    } else if d == 1 {
        "1"
    } else if d == 2 {
        "2"
    } else if d == 3 {
        "3"
    } else if d == 4 {
        "4"
    } else if d == 5 {
        "5"
    } else if d == 6 {
        "6"
    } else if d == 7 {
        "7"
    } else if d == 8 {
        "8"
    } else {
        "9"
    };
    assert(s@ =~= seq![digit_char(d as nat)]);
    s
}

/// Appends the decimal rendering of `n` to `out`.
pub fn push_decimal(out: &mut String, n: u64)
    ensures
        final(out)@ == old(out)@ + decimal(n as nat),
    decreases n,
{
    if n >= 10 {
        push_decimal(out, n / 10);
    }
    out.append(digit_text(n % 10));
    assert(out@ =~= old(out)@ + decimal(n as nat));
}

/// `String::push` of the standard library: the string afterwards is the
/// string before with the one character added at its end.
pub assume_specification[ String::push ](s: &mut String, c: char)
    ensures
        final(s)@ == old(s)@.push(c),
;

/// The characters of a string slice, in order.
pub fn chars_of(s: &str) -> (v: Vec<char>)
    ensures
        v@ == s@,
{
    let mut v: Vec<char> = Vec::new();
    for c in it: s.chars()
        invariant
            it.seq() == s@,
            v@ == s@.subrange(0, it.index()),
    {
        v.push(c);
        assert(v@ =~= s@.subrange(0, it.index() + 1));
    }
    assert(v@ =~= s@);
    v
}

/// The string made of the characters `v[from..to]`.
pub fn string_of_range(v: &Vec<char>, from: usize, to: usize) -> (s: String)
    requires
        from <= to <= v.len(),
    ensures
        s@ == v@.subrange(from as int, to as int),
{
    let mut s = String::new();
    let mut i: usize = from;
    while i < to
        invariant
            from <= i <= to <= v.len(),
            s@ == v@.subrange(from as int, i as int),
        decreases to - i,
    {
        s.push(v[i]);
        i += 1;
        assert(s@ =~= v@.subrange(from as int, i as int));
    }
    s
}

/// Whether `s` ends with `suffix`.
pub open spec fn ends_with(s: Seq<char>, suffix: Seq<char>) -> bool {
    suffix.len() <= s.len() && s.subrange(s.len() - suffix.len(), s.len() as int) == suffix
}

/// Tests whether `s` ends with `suffix`, character by character.
pub fn has_suffix(s: &str, suffix: &str) -> (b: bool)
    ensures
        b == ends_with(s@, suffix@),
{
    let text = chars_of(s);
    let tail = chars_of(suffix);
    if tail.len() > text.len() {
        return false;
    }
    let offset: usize = text.len() - tail.len();
    let mut i: usize = 0;
    while i < tail.len()
        invariant
            i <= tail.len(),
            offset + tail.len() == text.len(),
            text@ == s@,
            tail@ == suffix@,
            forall|j: int| 0 <= j < i ==> text@[offset + j] == tail@[j],
        decreases tail.len() - i,
    {
        if text[offset + i] != tail[i] {
            assert(text@.subrange(offset as int, text.len() as int)[i as int] != tail@[i as int]);
            return false;
        }
        i += 1;
    }
    assert(text@.subrange(offset as int, text.len() as int) =~= tail@);
    true
}

/// Index of the first line feed in `s`, or `s.len()` where there is none.
pub open spec fn first_newline(s: Seq<char>) -> nat
    decreases s.len(),
{
    if s.len() == 0 || s[0] == '\n' {
        0
    } else {
        1 + first_newline(s.drop_first())
    }
}

/// A line without the carriage return that may precede its line feed.
pub open spec fn strip_carriage_return(line: Seq<char>) -> Seq<char> {
    if line.len() > 0 && line.last() == '\r' {
        line.drop_last()
    } else {
        line
    }
}

/// The lines of a text. A line ends at a line feed, or at a carriage return
/// directly followed by a line feed; the terminator is not part of the line.
/// The last line needs no terminator, and a text that ends with one has no
/// empty line after it.
pub open spec fn lines_of(s: Seq<char>) -> Seq<Seq<char>>
    decreases s.len(),
{
    if s.len() == 0 {
        Seq::empty()
    } else {
        let k = first_newline(s);
        if k >= s.len() {
            seq![s]
        } else {
            seq![strip_carriage_return(s.take(k as int))] + lines_of(s.skip(k as int + 1))
        }
    }
}

/// `first_newline` is the position before which no line feed occurs and at
/// which one does, if any does.
pub proof fn lemma_first_newline(s: Seq<char>, k: int)
    requires
        0 <= k <= s.len(),
        forall|j: int| 0 <= j < k ==> s[j] != '\n',
        k < s.len() ==> s[k] == '\n',
    ensures
        first_newline(s) == k,
    decreases s.len(),
{
    if s.len() == 0 || s[0] == '\n' {
    } else {
        let t = s.drop_first();
        assert forall|j: int| 0 <= j < k - 1 implies t[j] != '\n' by {
            assert(t[j] == s[j + 1]);
        }
        lemma_first_newline(t, k - 1);
    }
}

/// The views of the strings of a vector, in order.
pub open spec fn texts(v: Seq<String>) -> Seq<Seq<char>> {
    Seq::new(v.len(), |i: int| v[i]@)
}

/// Splits a text into its lines.
pub fn split_lines(content: &str) -> (lines: Vec<String>)
    ensures
        texts(lines@) == lines_of(content@),
{
    let text = chars_of(content);
    let mut lines: Vec<String> = Vec::new();
    let mut start: usize = 0;
    let mut i: usize = 0;
    proof {
        assert(text@.skip(0) =~= text@);
        assert(texts(lines@) + lines_of(text@) =~= lines_of(text@));
    }
    while i < text.len()
        invariant
            start <= i <= text.len(),
            text@ == content@,
            forall|j: int| start <= j < i ==> text@[j] != '\n',
            texts(lines@) + lines_of(text@.skip(start as int)) == lines_of(text@),
        decreases text.len() - i,
    {
        if text[i] == '\n' {
            let ghost rest = text@.skip(start as int);
            proof {
                assert forall|j: int| 0 <= j < i - start implies rest[j] != '\n' by {
                    assert(rest[j] == text@[start + j]);
                }
                lemma_first_newline(rest, (i - start) as int);
                assert(rest.take(i - start) =~= text@.subrange(start as int, i as int));
                assert(rest.skip(i - start + 1) =~= text@.skip(i + 1));
            }
            let end: usize = if i > start && text[i - 1] == '\r' {
                i - 1
            } else {
                i
            };
            let line = string_of_range(&text, start, end);
            proof {
                let raw = text@.subrange(start as int, i as int);
                assert(line@ =~= strip_carriage_return(raw));
                assert(texts(lines@.push(line)) =~= texts(lines@) + seq![line@]);
                assert(texts(lines@.push(line)) + lines_of(text@.skip(i + 1)) =~= texts(lines@)
                    + (seq![line@] + lines_of(text@.skip(i + 1))));
            }
            lines.push(line);
            start = i + 1;
        }
        i += 1;
    }
    if start < text.len() {
        let ghost rest = text@.skip(start as int);
        proof {
            assert forall|j: int| 0 <= j < rest.len() implies rest[j] != '\n' by {
                assert(rest[j] == text@[start + j]);
            }
            lemma_first_newline(rest, rest.len() as int);
            assert(rest =~= text@.subrange(start as int, text.len() as int));
        }
        let line = string_of_range(&text, start, text.len());
        proof {
            assert(texts(lines@.push(line)) =~= texts(lines@) + seq![line@]);
        }
        lines.push(line);
    } else {
        assert(texts(lines@) + Seq::<Seq<char>>::empty() =~= texts(lines@));
    }
    lines
}

/// Whether `s` is `lower` but for the case of its letters, where `upper` is
/// `lower` in capitals: at each place `s` has the character of the one or of
/// the other.
pub open spec fn matches_ignoring_case(s: Seq<char>, lower: Seq<char>, upper: Seq<char>) -> bool {
    &&& s.len() == lower.len()
    &&& s.len() == upper.len()
    &&& forall|i: int| 0 <= i < s.len() ==> s[i] == lower[i] || s[i] == upper[i]
}

/// Tests whether the characters of `text` from `from` on are `lower` but
/// for the case of its letters.
pub fn tail_matches_ignoring_case(
    text: &Vec<char>,
    from: usize,
    lower: &str,
    upper: &str,
) -> (b: bool)
    requires
        from <= text.len(),
    ensures
        b == matches_ignoring_case(text@.skip(from as int), lower@, upper@),
{
    let small = chars_of(lower);
    let capital = chars_of(upper);
    let n = text.len() - from;
    if small.len() != n || capital.len() != n {
        return false;
    }
    let ghost tail = text@.skip(from as int);
    let mut i: usize = 0;
    while i < n
        invariant
            i <= n,
            from + n == text.len(),
            small@.len() == n,
            capital@.len() == n,
            small@ == lower@,
            capital@ == upper@,
            tail == text@.skip(from as int),
            forall|j: int| 0 <= j < i ==> tail[j] == small@[j] || tail[j] == capital@[j],
        decreases n - i,
    {
        let c = text[from + i];
        assert(tail[i as int] == c);
        if c != small[i] && c != capital[i] {
            return false;
        }
        i += 1;
    }
    true
}

/// Tests whether `s` is `lower` but for the case of its letters.
pub fn equals_ignoring_case(s: &str, lower: &str, upper: &str) -> (b: bool)
    ensures
        b == matches_ignoring_case(s@, lower@, upper@),
{
    let text = chars_of(s);
    assert(text@.skip(0) =~= s@);
    tail_matches_ignoring_case(&text, 0, lower, upper)
}

/// Whether `s` begins with `prefix`.
pub open spec fn starts_with(s: Seq<char>, prefix: Seq<char>) -> bool {
    prefix.len() <= s.len() && s.subrange(0, prefix.len() as int) == prefix
}

/// A time of whole microseconds in milliseconds, rounded to two places
/// after the point, halves upwards: `1234567` is `1234.57`.
pub open spec fn millis_text(micros: nat) -> Seq<char> {
    let hundredths = (micros + 5) / 10;
    decimal(hundredths / 100) + seq!['.', digit_char((hundredths / 10) % 10), digit_char(
        hundredths % 10,
    )]
}

/// Appends a time of whole microseconds in milliseconds, with two places
/// after the point.
pub fn push_millis(out: &mut String, micros: u64)
    ensures
        final(out)@ == old(out)@ + millis_text(micros as nat),
{
    let hundredths: u64 = (micros / 10) + (if micros % 10 >= 5 {
        1u64
    } else {
        0u64
    });
    assert(hundredths == (micros + 5) / 10);
    push_decimal(out, hundredths / 100);
    out.push('.');
    out.append(digit_text((hundredths / 10) % 10));
    out.append(digit_text(hundredths % 10));
    assert(out@ =~= old(out)@ + millis_text(micros as nat));
}

} // verus!
