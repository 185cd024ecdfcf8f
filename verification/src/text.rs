//! Character-level helpers shared by the rest of the crate.

use vstd::prelude::*;

verus! {

/// Appends one character to a string.
///
/// Trusted: wraps `String::push`, which adds the character at the end and
/// leaves what was there unchanged.
#[verifier::external_body]
pub(crate) fn push_char(s: &mut String, c: char)
    ensures
        final(s)@ == old(s)@.push(c),
{
    s.push(c)
}

/// The characters of a string, in order.
pub fn chars_of(s: &str) -> (v: Vec<char>)
    ensures
        v@ == s@,
{
    let mut v: Vec<char> = Vec::new();
    for c in it: s.chars()
        invariant
            v@ == it.seq().take(it.index()),
            it.seq() == s@,
    {
        v.push(c);
        assert(it.seq().take(it.index() + 1) == it.seq().take(it.index()).push(c));
    }
    assert(v@ == s@);
    v
}

/// The string made of the given characters, in order.
pub fn string_of(v: &[char]) -> (s: String)
    ensures
        s@ == v@,
{
    let mut s = String::new();
    let mut i: usize = 0;
    while i < v.len()
        invariant
            i <= v.len(),
            s@ == v@.take(i as int),
        decreases v.len() - i,
    {
        push_char(&mut s, v[i]);
        assert(v@.take(i + 1) == v@.take(i as int).push(v@[i as int]));
        i += 1;
    }
    assert(v@.take(v.len() as int) == v@);
    s
}

/// Whether two strings hold the same characters.
pub fn same_text(a: &str, b: &str) -> (r: bool)
    ensures
        r == (a@ == b@),
{
    let x = a.to_owned();
    let y = b.to_owned();
    x == y
}

/// A copy of the texts, in order.
pub fn copy_texts(items: &[String]) -> (out: Vec<String>)
    ensures
        out.deep_view() == items.deep_view(),
{
    let mut out: Vec<String> = Vec::new();
    let mut i: usize = 0;
    while i < items.len()
        invariant
            i <= items.len(),
            out.deep_view() == items.deep_view().take(i as int),
        decreases items.len() - i,
    {
        let ghost before = out.deep_view();
        out.push(items[i].clone());
        assert(out.deep_view() =~= before.push(items[i as int]@));
        assert(items.deep_view().take(i + 1) =~= items.deep_view().take(i as int).push(
            items[i as int]@,
        ));
        i += 1;
    }
    assert(items.deep_view().take(items.len() as int) =~= items.deep_view());
    out
}

/// A copy of the texts from index `from` onward.
pub fn copy_texts_from(items: &[String], from: usize) -> (out: Vec<String>)
    requires
        from <= items.len(),
    ensures
        out.deep_view() == items.deep_view().skip(from as int),
{
    let tail = vstd::slice::slice_subrange(items, from, items.len());
    assert(tail.deep_view() =~= items.deep_view().skip(from as int));
    copy_texts(tail)
}

/// The parts joined into one text, with `sep` between neighbours.
pub open spec fn join_spec(parts: Seq<Seq<char>>, sep: Seq<char>) -> Seq<char>
    decreases parts.len(),
{
    if parts.len() == 0 {
        Seq::empty()
    } else if parts.len() == 1 {
        parts[0]
    } else {
        join_spec(parts.drop_last(), sep) + sep + parts.last()
    }
}

/// Joins the parts, putting `sep` between neighbours.
pub fn join(parts: &[String], sep: &str) -> (out: String)
    ensures
        out@ == join_spec(parts.deep_view(), sep@),
{
    let mut out = String::new();
    let mut i: usize = 0;
    while i < parts.len()
        invariant
            i <= parts.len(),
            out@ == join_spec(parts.deep_view().take(i as int), sep@),
        decreases parts.len() - i,
    {
        proof {
            let next = parts.deep_view().take(i + 1);
            assert(next.drop_last() == parts.deep_view().take(i as int));
            assert(next.last() == parts[i as int]@);
        }
        if i > 0 {
            out.append(sep);
        }
        out.append(parts[i].as_str());
        i += 1;
    }
    assert(parts.deep_view().take(parts.len() as int) == parts.deep_view());
    out
}

/// The pieces of `s` between occurrences of `sep`. There is always at least
/// one piece; a separator at either end leaves an empty piece there.
pub open spec fn split_spec(s: Seq<char>, sep: char) -> Seq<Seq<char>>
    decreases s.len(),
{
    if s.len() == 0 {
        seq![Seq::empty()]
    } else {
        let before = split_spec(s.drop_last(), sep);
        if s.last() == sep {
            before.push(Seq::empty())
        } else {
            before.drop_last().push(before.last().push(s.last()))
        }
    }
}

/// Joining the pieces of a text with the separator gives the text back.
pub proof fn lemma_join_split(s: Seq<char>, sep: char)
    ensures
        split_spec(s, sep).len() >= 1,
        join_spec(split_spec(s, sep), seq![sep]) == s,
    decreases s.len(),
{
    if s.len() > 0 {
        lemma_join_split(s.drop_last(), sep);
        let before = split_spec(s.drop_last(), sep);
        let now = split_spec(s, sep);
        if s.last() == sep {
            assert(now.drop_last() == before);
            assert(join_spec(now, seq![sep]) =~= s.drop_last() + seq![sep]);
        } else {
            let piece = before.last().push(s.last());
            if before.len() == 1 {
                assert(before[0] == s.drop_last());
                assert(now =~= seq![piece]);
            } else {
                assert(now.drop_last() =~= before.drop_last());
                assert(join_spec(before, seq![sep]) == join_spec(before.drop_last(), seq![sep])
                    + seq![sep] + before.last());
                assert(join_spec(now, seq![sep]) =~= (join_spec(before.drop_last(), seq![sep])
                    + seq![sep] + before.last()).push(s.last()));
            }
        }
        assert(join_spec(now, seq![sep]) =~= s);
    } else {
        assert(join_spec(split_spec(s, sep), seq![sep]) =~= s);
    }
}

/// No piece of a split text holds the separator.
pub proof fn lemma_split_pieces(s: Seq<char>, sep: char)
    ensures
        forall|i: int, j: int|
            0 <= i < split_spec(s, sep).len() && 0 <= j < split_spec(s, sep)[i].len()
                ==> #[trigger] split_spec(s, sep)[i][j] != sep,
    decreases s.len(),
{
    if s.len() > 0 {
        lemma_split_pieces(s.drop_last(), sep);
        lemma_join_split(s.drop_last(), sep);
        let before = split_spec(s.drop_last(), sep);
        let now = split_spec(s, sep);
        assert forall|i: int, j: int|
            0 <= i < now.len() && 0 <= j < now[i].len() implies #[trigger] now[i][j] != sep by {
            if i < before.len() - 1 {
                assert(now[i] == before[i]);
                assert(before[i][j] != sep);
            } else if s.last() == sep {
                if i < before.len() {
                    assert(now[i] == before[i]);
                    assert(before[i][j] != sep);
                }
            } else {
                if j < before.last().len() {
                    assert(now[i][j] == before[i][j]);
                }
            }
        }
    }
}

/// Splits `s` at every occurrence of `sep`.
pub fn split_on(s: &str, sep: char) -> (pieces: Vec<String>)
    ensures
        pieces.deep_view() == split_spec(s@, sep),
{
    let mut pieces: Vec<String> = Vec::new();
    let mut current = String::new();
    for c in it: s.chars()
        invariant
            it.seq() == s@,
            split_spec(it.seq().take(it.index()), sep) == pieces.deep_view().push(current@),
    {
        let ghost done = pieces.deep_view();
        let ghost piece = current@;
        proof {
            let next = it.seq().take(it.index() + 1);
            assert(next.drop_last() == it.seq().take(it.index()));
            assert(next.last() == c);
            assert(done.push(piece).drop_last() == done);
        }
        if c == sep {
            pieces.push(current);
            current = String::new();
            assert(pieces.deep_view() == done.push(piece));
        } else {
            push_char(&mut current, c);
        }
    }
    let ghost done = pieces.deep_view();
    assert(s@.take(s@.len() as int) == s@);
    pieces.push(current);
    assert(pieces.deep_view() == done.push(current@));
    pieces
}

/// `s` with every occurrence of `from` replaced by the text `to`.
pub open spec fn replace_spec(s: Seq<char>, from: char, to: Seq<char>) -> Seq<char>
    decreases s.len(),
{
    if s.len() == 0 {
        Seq::empty()
    } else if s.last() == from {
        replace_spec(s.drop_last(), from, to) + to
    } else {
        replace_spec(s.drop_last(), from, to).push(s.last())
    }
}

/// Replaces every occurrence of `from` in `s` by `to`.
pub fn replace_char(s: &str, from: char, to: &str) -> (out: String)
    ensures
        out@ == replace_spec(s@, from, to@),
{
    let mut out = String::new();
    for c in it: s.chars()
        invariant
            it.seq() == s@,
            out@ == replace_spec(it.seq().take(it.index()), from, to@),
    {
        proof {
            let next = it.seq().take(it.index() + 1);
            assert(next.drop_last() == it.seq().take(it.index()));
            assert(next.last() == c);
        }
        if c == from {
            out.append(to);
        } else {
            push_char(&mut out, c);
        }
    }
    assert(s@.take(s@.len() as int) == s@);
    out
}

/// Whether `s` begins with `prefix`.
pub fn starts_with(s: &str, prefix: &str) -> (r: bool)
    ensures
        r == prefix@.is_prefix_of(s@),
{
    let text = chars_of(s);
    let head = chars_of(prefix);
    if head.len() > text.len() {
        return false;
    }
    let mut i: usize = 0;
    while i < head.len()
        invariant
            i <= head.len() <= text.len(),
            head@ == prefix@,
            text@ == s@,
            forall|j: int| 0 <= j < i ==> head@[j] == text@[j],
        decreases head.len() - i,
    {
        if head[i] != text[i] {
            return false;
        }
        i += 1;
    }
    assert(prefix@ =~= s@.subrange(0, prefix@.len() as int));
    true
}

/// The character that writes the digit `d`.
pub open spec fn digit_char(d: int) -> char {
    if d == 0 {
        '0'
    } else if d == 1 {
        '1'
    } else if d == 2 {
        '2'
    } else if d == 3 {
        '3'
    } else if d == 4 {
        '4'
    } else if d == 5 {
        '5'
    } else if d == 6 {
        '6'
    } else if d == 7 {
        '7'
    } else if d == 8 {
        '8'
    } else {
        '9'
    }
}

/// Whether `c` is one of the ten decimal digits.
pub open spec fn is_digit(c: char) -> bool {
    '0' <= c && c <= '9'
}

/// The number that a decimal digit stands for.
pub open spec fn digit_value(c: char) -> int {
    c as int - '0' as int
}

/// `n` written in decimal, without leading zeros.
pub open spec fn decimal(n: nat) -> Seq<char>
    decreases n,
{
    if n < 10 {
        seq![digit_char(n as int)]
    } else {
        decimal(n / 10).push(digit_char((n % 10) as int))
    }
}

/// The number that a run of decimal digits writes; leading zeros count for nothing.
pub open spec fn digits_value(s: Seq<char>) -> nat
    decreases s.len(),
{
    if s.len() == 0 {
        0
    } else {
        (digits_value(s.drop_last()) * 10 + digit_value(s.last())) as nat
    }
}

/// Whether every character of `s` is a decimal digit.
pub open spec fn all_digits(s: Seq<char>) -> bool {
    forall|i: int| 0 <= i < s.len() ==> is_digit(#[trigger] s[i])
}

/// The count that `s` writes: an optional `+`, then one or more decimal
/// digits and nothing else, with a value that fits the machine word.
pub open spec fn parse_count_spec(s: Seq<char>) -> Option<usize> {
    let digits = if s.len() > 0 && s[0] == '+' {
        s.skip(1)
    } else {
        s
    };
    if digits.len() > 0 && all_digits(digits) && digits_value(digits) <= usize::MAX {
        Some(digits_value(digits) as usize)
    } else {
        None
    }
}

/// What `decimal` writes is read back as the same number: only digits,
/// at least one, and with the value written.
pub proof fn lemma_decimal_reads_back(n: nat)
    ensures
        decimal(n).len() >= 1,
        all_digits(decimal(n)),
        digits_value(decimal(n)) == n,
        n <= usize::MAX ==> parse_count_spec(decimal(n)) == Some(n as usize),
    decreases n,
{
    let s = decimal(n);
    if n < 10 {
        assert(s.drop_last() =~= Seq::<char>::empty());
        assert(digit_value(digit_char(n as int)) == n);
        assert(digits_value(s.drop_last()) == 0);
    } else {
        lemma_decimal_reads_back(n / 10);
        let front = decimal(n / 10);
        let d = digit_char((n % 10) as int);
        assert(s.drop_last() =~= front);
        assert(s.last() == d);
        assert(digit_value(d) == n % 10);
        assert forall|i: int| 0 <= i < s.len() implies is_digit(#[trigger] s[i]) by {
            if i < front.len() {
                assert(s[i] == front[i]);
                assert(is_digit(front[i]));
            }
        }
    }
    assert(is_digit(s[0]));
    assert(s[0] != '+');
}

fn digit_of(d: usize) -> (c: char)
    requires
        d < 10,
    ensures
        c == digit_char(d as int),
{
    if d == 0 {
        '0'
    } else if d == 1 {
        '1'
    } else if d == 2 {
        '2'
    } else if d == 3 {
        '3'
    } else if d == 4 {
        '4'
    } else if d == 5 {
        '5'
    } else if d == 6 {
        '6'
    } else if d == 7 {
        '7'
    } else if d == 8 {
        '8'
    } else {
        '9'
    }
}

/// Writes `n` in decimal.
pub fn decimal_string(n: usize) -> (out: String)
    ensures
        out@ == decimal(n as nat),
{
    // Low digits first, then read backwards.
    let mut low_first: Vec<char> = Vec::new();
    let mut rest: usize = n;
    while rest >= 10
        invariant
            decimal(n as nat) == decimal(rest as nat) + low_first@.reverse(),
        decreases rest,
    {
        let d = digit_of(rest % 10);
        let ghost before = low_first@;
        low_first.push(d);
        proof {
            assert(low_first@.reverse() =~= seq![d] + before.reverse());
            assert(decimal(rest as nat) == decimal((rest / 10) as nat).push(d));
            assert(decimal((rest / 10) as nat).push(d) + before.reverse() =~= decimal(
                (rest / 10) as nat,
            ) + (seq![d] + before.reverse()));
        }
        rest = rest / 10;
    }
    let mut out = String::new();
    push_char(&mut out, digit_of(rest));
    let mut i: usize = low_first.len();
    while i > 0
        invariant
            i <= low_first.len(),
            out@ == decimal(rest as nat) + low_first@.reverse().take(low_first.len() - i),
        decreases i,
    {
        i -= 1;
        push_char(&mut out, low_first[i]);
        proof {
            let r = low_first@.reverse();
            let k = low_first.len() - i;
            assert(r.take(k) =~= r.take(k - 1).push(low_first@[i as int]));
            assert(decimal(rest as nat) + r.take(k - 1).push(low_first@[i as int]) =~= (decimal(
                rest as nat,
            ) + r.take(k - 1)).push(low_first@[i as int]));
        }
    }
    proof {
        let r = low_first@.reverse();
        assert(r.take(low_first.len() as int) =~= r);
    }
    out
}

proof fn lemma_digits_value_prefix(s: Seq<char>, k: int)
    requires
        0 <= k <= s.len(),
        all_digits(s),
    ensures
        digits_value(s.take(k)) <= digits_value(s),
    decreases s.len() - k,
{
    if k < s.len() {
        lemma_digits_value_prefix(s, k + 1);
        assert(s.take(k + 1).drop_last() == s.take(k));
        assert(is_digit(s[k]));
        assert(s.take(k + 1).last() == s[k]);
    } else {
        assert(s.take(k) == s);
    }
}

/// Reads a count: an optional `+` followed by decimal digits. Anything else,
/// and a value too large for the machine word, is no count.
pub fn parse_count(s: &str) -> (r: Option<usize>)
    ensures
        r == parse_count_spec(s@),
{
    let text = chars_of(s);
    let start: usize = if text.len() > 0 && text[0] == '+' {
        1
    } else {
        0
    };
    let ghost digits = s@.skip(start as int);
    proof {
        assert(s@.skip(0) =~= s@);
        assert(digits.len() == s@.len() - start);
    }
    if start == text.len() {
        return None;
    }
    let mut value: usize = 0;
    let mut i: usize = start;
    while i < text.len()
        invariant
            start <= i <= text.len(),
            text@ == s@,
            digits == s@.skip(start as int),
            digits == (if s@.len() > 0 && s@[0] == '+' {
                s@.skip(1)
            } else {
                s@
            }),
            all_digits(digits.take(i - start)),
            value == digits_value(digits.take(i - start)),
        decreases text.len() - i,
    {
        let c = text[i];
        let ghost seen = digits.take(i - start);
        let ghost next = digits.take(i - start + 1);
        proof {
            assert(next.drop_last() == seen);
            assert(next.last() == c);
        }
        if !('0' <= c && c <= '9') {
            assert(!is_digit(digits[i - start]));
            return None;
        }
        let d: usize = (c as u32 - '0' as u32) as usize;
        assert(d == digit_value(c));
        if value > (usize::MAX - d) / 10 {
            proof {
                assert(digits_value(next) > usize::MAX);
                if all_digits(digits) {
                    lemma_digits_value_prefix(digits, i - start + 1);
                }
            }
            return None;
        }
        value = value * 10 + d;
        proof {
            assert forall|j: int| 0 <= j < next.len() implies is_digit(#[trigger] next[j]) by {
                if j < seen.len() {
                    assert(next[j] == seen[j]);
                }
            }
        }
        i += 1;
    }
    assert(digits.take(text.len() - start) == digits);
    Some(value)
}

/// Whether `c` is whitespace: whether it has Unicode's `White_Space`
/// property. These are the tab, the line feed, the vertical tab, the form
/// feed, the carriage return and the space; the next-line control and the
/// no-break space; and the spaces and separators of the general
/// punctuation block and its neighbours.
pub open spec fn is_whitespace(c: char) -> bool {
    let n = c as u32;
    (0x09 <= n && n <= 0x0D) || n == 0x20 || n == 0x85 || n == 0xA0 || n == 0x1680 || (0x2000
        <= n && n <= 0x200A) || n == 0x2028 || n == 0x2029 || n == 0x202F || n == 0x205F || n
        == 0x3000
}

/// Tests a character for whitespace.
///
/// Trusted: wraps `char::is_whitespace`, which is documented to tell
/// whether the character has Unicode's `White_Space` property. The
/// contract writes that property out as the 25 characters that have it.
#[verifier::external_body]
pub(crate) fn char_is_whitespace(c: char) -> (b: bool)
    ensures
        b == is_whitespace(c),
{
    c.is_whitespace()
}

/// `s` without the whitespace at its start.
pub open spec fn trim_start_spec(s: Seq<char>) -> Seq<char>
    decreases s.len(),
{
    if s.len() > 0 && is_whitespace(s[0]) {
        trim_start_spec(s.skip(1))
    } else {
        s
    }
}

/// `s` without the whitespace at its end.
pub open spec fn trim_end_spec(s: Seq<char>) -> Seq<char>
    decreases s.len(),
{
    if s.len() > 0 && is_whitespace(s.last()) {
        trim_end_spec(s.drop_last())
    } else {
        s
    }
}

/// `s` without the whitespace at either end.
pub open spec fn trim_spec(s: Seq<char>) -> Seq<char> {
    trim_end_spec(trim_start_spec(s))
}

/// A text that neither begins nor ends with whitespace is left as it is,
/// and whitespace added at its end is trimmed away again.
pub proof fn lemma_trim_keeps_core(core: Seq<char>, tail: Seq<char>)
    requires
        core.len() > 0,
        !is_whitespace(core[0]),
        !is_whitespace(core.last()),
        forall|i: int| 0 <= i < tail.len() ==> is_whitespace(#[trigger] tail[i]),
    ensures
        trim_spec(core) == core,
        trim_spec(core + tail) == core,
    decreases tail.len(),
{
    let whole = core + tail;
    assert(whole[0] == core[0]);
    assert(trim_start_spec(whole) == whole);
    if tail.len() == 0 {
        assert(whole =~= core);
    } else {
        assert(whole.last() == tail.last());
        assert(is_whitespace(tail[tail.len() - 1]));
        assert(whole.drop_last() =~= core + tail.drop_last());
        assert forall|i: int| 0 <= i < tail.drop_last().len() implies is_whitespace(
            #[trigger] tail.drop_last()[i],
        ) by {
            assert(tail.drop_last()[i] == tail[i]);
        }
        lemma_trim_keeps_core(core, tail.drop_last());
        assert(trim_start_spec(core + tail.drop_last()) == core + tail.drop_last()) by {
            assert((core + tail.drop_last())[0] == core[0]);
        }
    }
}

/// Replacing a character keeps the ends of a text that are not that
/// character.
pub proof fn lemma_replace_keeps_ends(s: Seq<char>, from: char, to: Seq<char>)
    requires
        s.len() > 0,
    ensures
        s[0] != from ==> replace_spec(s, from, to).len() > 0 && replace_spec(s, from, to)[0]
            == s[0],
        s.last() != from ==> replace_spec(s, from, to).len() > 0 && replace_spec(
            s,
            from,
            to,
        ).last() == s.last(),
    decreases s.len(),
{
    let front = replace_spec(s.drop_last(), from, to);
    if s.len() > 1 {
        lemma_replace_keeps_ends(s.drop_last(), from, to);
        assert(s.drop_last()[0] == s[0]);
        if s[0] != from {
            assert((front + to)[0] == front[0]);
            assert(front.push(s.last())[0] == front[0]);
        }
    } else {
        assert(s.drop_last().len() == 0);
        assert(front.len() == 0);
        assert(s.last() == s[0]);
    }
}

/// Replacing a character that does not occur changes nothing.
pub proof fn lemma_replace_nothing(s: Seq<char>, from: char, to: Seq<char>)
    requires
        forall|i: int| 0 <= i < s.len() ==> #[trigger] s[i] != from,
    ensures
        replace_spec(s, from, to) == s,
    decreases s.len(),
{
    if s.len() > 0 {
        assert forall|i: int| 0 <= i < s.drop_last().len() implies #[trigger] s.drop_last()[i]
            != from by {
            assert(s.drop_last()[i] == s[i]);
        }
        lemma_replace_nothing(s.drop_last(), from, to);
        assert(s[s.len() - 1] != from);
        assert(s.drop_last().push(s.last()) =~= s);
    } else {
        assert(replace_spec(s, from, to) =~= s);
    }
}

/// Replacing a character goes through a text piece by piece.
pub proof fn lemma_replace_concat(a: Seq<char>, b: Seq<char>, from: char, to: Seq<char>)
    ensures
        replace_spec(a + b, from, to) == replace_spec(a, from, to) + replace_spec(b, from, to),
    decreases b.len(),
{
    if b.len() == 0 {
        assert(a + b =~= a);
        assert(replace_spec(a, from, to) + replace_spec(b, from, to) =~= replace_spec(
            a,
            from,
            to,
        ));
    } else {
        lemma_replace_concat(a, b.drop_last(), from, to);
        assert((a + b).drop_last() =~= a + b.drop_last());
        assert((a + b).last() == b.last());
        if b.last() == from {
            assert(replace_spec(a, from, to) + (replace_spec(b.drop_last(), from, to) + to)
                =~= (replace_spec(a, from, to) + replace_spec(b.drop_last(), from, to)) + to);
        } else {
            assert(replace_spec(a, from, to) + replace_spec(b.drop_last(), from, to).push(
                b.last(),
            ) =~= (replace_spec(a, from, to) + replace_spec(b.drop_last(), from, to)).push(
                b.last(),
            ));
        }
    }
}

/// Removes the whitespace at both ends of `s`.
pub fn trim(s: &str) -> (out: String)
    ensures
        out@ == trim_spec(s@),
{
    let text = chars_of(s);
    let mut start: usize = 0;
    assert(s@.skip(0) =~= s@);
    while start < text.len() && char_is_whitespace(text[start])
        invariant
            start <= text.len(),
            text@ == s@,
            trim_start_spec(s@) == trim_start_spec(s@.skip(start as int)),
        decreases text.len() - start,
    {
        proof {
            assert(s@.skip(start as int).skip(1) =~= s@.skip(start + 1));
        }
        start += 1;
    }
    let ghost rest = s@.skip(start as int);
    assert(trim_start_spec(s@) == rest);
    let mut end: usize = text.len();
    while end > start && char_is_whitespace(text[end - 1])
        invariant
            start <= end <= text.len(),
            text@ == s@,
            rest == s@.skip(start as int),
            trim_end_spec(rest) == trim_end_spec(s@.subrange(start as int, end as int)),
        decreases end,
    {
        proof {
            assert(s@.subrange(start as int, end as int).drop_last() =~= s@.subrange(
                start as int,
                end - 1,
            ));
        }
        end -= 1;
    }
    assert(trim_end_spec(rest) == s@.subrange(start as int, end as int));
    string_of(vstd::slice::slice_subrange(text.as_slice(), start, end))
}

/// The words found while scanning a text: those finished, and the one
/// being read.
pub struct Words {
    pub done: Seq<Seq<char>>,
    pub current: Seq<char>,
}

/// The scan after one more character: whitespace ends the word being read,
/// if there is one; any other character joins it.
pub open spec fn words_step(w: Words, c: char) -> Words {
    if is_whitespace(c) {
        if w.current.len() > 0 {
            Words { done: w.done.push(w.current), current: Seq::empty() }
        } else {
            w
        }
    } else {
        Words { current: w.current.push(c), ..w }
    }
}

/// The words of a text: its longest runs of characters that are not whitespace.
pub open spec fn words_spec(s: Seq<char>) -> Seq<Seq<char>> {
    let end = s.fold_left(
        Words { done: Seq::empty(), current: Seq::empty() },
        |w: Words, c: char| words_step(w, c),
    );
    if end.current.len() > 0 {
        end.done.push(end.current)
    } else {
        end.done
    }
}

/// Splits a text into its words.
pub fn words(s: &str) -> (r: Vec<String>)
    ensures
        r.deep_view() == words_spec(s@),
{
    let mut done: Vec<String> = Vec::new();
    let mut current = String::new();
    let ghost step = |w: Words, c: char| words_step(w, c);
    let ghost start = Words { done: Seq::empty(), current: Seq::empty() };
    for c in it: s.chars()
        invariant
            it.seq() == s@,
            step == (|w: Words, c: char| words_step(w, c)),
            start == (Words { done: Seq::empty(), current: Seq::empty() }),
            it.seq().take(it.index()).fold_left(start, step).done == done.deep_view(),
            it.seq().take(it.index()).fold_left(start, step).current == current@,
    {
        let ghost before = it.seq().take(it.index()).fold_left(start, step);
        proof {
            let prefix = it.seq().take(it.index() + 1);
            assert(prefix.drop_last() == it.seq().take(it.index()));
            assert(prefix.last() == c);
        }
        if char_is_whitespace(c) {
            if !current.as_str().is_empty() {
                done.push(current);
                current = String::new();
                assert(done.deep_view() =~= before.done.push(before.current));
            }
        } else {
            push_char(&mut current, c);
        }
    }
    proof {
        assert(s@.take(s@.len() as int) == s@);
    }
    let ghost finished = done.deep_view();
    if !current.as_str().is_empty() {
        done.push(current);
        assert(done.deep_view() =~= finished.push(current@));
    }
    done
}

/// The number that `s` writes, if it fits 32 bits with a sign: an optional
/// `+` or `-`, then one or more decimal digits and nothing else.
pub open spec fn parse_i32_spec(s: Seq<char>) -> Option<i32> {
    let signed = s.len() > 0 && (s[0] == '-' || s[0] == '+');
    let digits = if signed {
        s.skip(1)
    } else {
        s
    };
    let value = if s.len() > 0 && s[0] == '-' {
        -(digits_value(digits) as int)
    } else {
        digits_value(digits) as int
    };
    if digits.len() > 0 && all_digits(digits) && i32::MIN <= value <= i32::MAX {
        Some(value as i32)
    } else {
        None
    }
}

/// Reads a number with an optional sign. Anything else, and a value that
/// does not fit 32 bits, is no number.
pub fn parse_i32(s: &str) -> (r: Option<i32>)
    ensures
        r == parse_i32_spec(s@),
{
    let text = chars_of(s);
    let negative = text.len() > 0 && text[0] == '-';
    let start: usize = if text.len() > 0 && (text[0] == '-' || text[0] == '+') {
        1
    } else {
        0
    };
    let ghost digits = s@.skip(start as int);
    proof {
        assert(s@.skip(0) =~= s@);
        assert(digits.len() == s@.len() - start);
    }
    if start == text.len() {
        return None;
    }
    // One more than the largest positive value: the size of the smallest negative one.
    let limit: u64 = 0x8000_0000;
    let mut value: u64 = 0;
    let mut i: usize = start;
    while i < text.len()
        invariant
            start <= i <= text.len(),
            text@ == s@,
            digits == s@.skip(start as int),
            digits == (if s@.len() > 0 && (s@[0] == '-' || s@[0] == '+') {
                s@.skip(1)
            } else {
                s@
            }),
            limit == 0x8000_0000,
            all_digits(digits.take(i - start)),
            value == digits_value(digits.take(i - start)),
            value <= limit,
        decreases text.len() - i,
    {
        let c = text[i];
        let ghost seen = digits.take(i - start);
        let ghost next = digits.take(i - start + 1);
        proof {
            assert(next.drop_last() == seen);
            assert(next.last() == c);
        }
        if !('0' <= c && c <= '9') {
            assert(!is_digit(digits[i - start]));
            return None;
        }
        let d: u64 = (c as u32 - '0' as u32) as u64;
        assert(d == digit_value(c));
        value = value * 10 + d;
        proof {
            assert forall|j: int| 0 <= j < next.len() implies is_digit(#[trigger] next[j]) by {
                if j < seen.len() {
                    assert(next[j] == seen[j]);
                }
            }
        }
        if value > limit {
            proof {
                if all_digits(digits) {
                    lemma_digits_value_prefix(digits, i - start + 1);
                }
            }
            return None;
        }
        i += 1;
    }
    assert(digits.take(text.len() - start) == digits);
    if negative {
        if value == limit {
            Some(i32::MIN)
        } else {
            Some(0 - (value as i32))
        }
    } else if value == limit {
        None
    } else {
        Some(value as i32)
    }
}

} // verus!
