//! Text as sequences of characters: the string operations the mail logic is
//! built from, each with the sequence it computes.
use vstd::prelude::*;

verus! {

/// `String::push`: appends one character.
pub assume_specification[ String::push ](s: &mut String, c: char)
    ensures
        final(s)@ == old(s)@.push(c),
;

/// The characters of `s`, in order.
pub fn chars_of(s: &str) -> (r: Vec<char>)
    ensures
        r@ == s@,
{
    let mut r: Vec<char> = Vec::new();
    for c in it: s.chars()
        invariant
            it.seq() == s@,
            r@ == s@.take(it.index() as int),
    {
        r.push(c);
        assert(s@.take(it.index() + 1) =~= s@.take(it.index() as int).push(c));
    }
    assert(s@.take(s@.len() as int) =~= s@);
    r
}

/// The string made of the characters `chars[from..to]`.
pub fn string_of(chars: &[char], from: usize, to: usize) -> (r: String)
    requires
        from <= to <= chars@.len(),
    ensures
        r@ == chars@.subrange(from as int, to as int),
{
    let mut r = String::new();
    let mut i: usize = from;
    while i < to
        invariant
            from <= i <= to <= chars@.len(),
            r@ == chars@.subrange(from as int, i as int),
        decreases to - i,
    {
        r.push(chars[i]);
        assert(chars@.subrange(from as int, i + 1) =~= chars@.subrange(from as int, i as int).push(
            chars@[i as int],
        ));
        i += 1;
    }
    r
}

/// The Unicode property `White_Space`.
pub open spec fn white_space(c: char) -> bool {
    ||| '\u{9}' <= c <= '\u{d}'
    ||| c == ' '
    ||| c == '\u{85}'
    ||| c == '\u{a0}'
    ||| c == '\u{1680}'
    ||| '\u{2000}' <= c <= '\u{200a}'
    ||| c == '\u{2028}'
    ||| c == '\u{2029}'
    ||| c == '\u{202f}'
    ||| c == '\u{205f}'
    ||| c == '\u{3000}'
}

/// Whether `c` is white space.
pub fn is_white_space(c: char) -> (r: bool)
    ensures
        r == white_space(c),
{
    ('\u{9}' <= c && c <= '\u{d}') || c == ' ' || c == '\u{85}' || c == '\u{a0}' || c == '\u{1680}'
        || ('\u{2000}' <= c && c <= '\u{200a}') || c == '\u{2028}' || c == '\u{2029}' || c
        == '\u{202f}' || c == '\u{205f}' || c == '\u{3000}'
}

/// `s` without the white space at its start.
pub open spec fn trim_start(s: Seq<char>) -> Seq<char>
    decreases s.len(),
{
    if s.len() > 0 && white_space(s[0]) {
        trim_start(s.drop_first())
    } else {
        s
    }
}

/// `s` without the white space at its end.
pub open spec fn trim_end(s: Seq<char>) -> Seq<char>
    decreases s.len(),
{
    if s.len() > 0 && white_space(s.last()) {
        trim_end(s.drop_last())
    } else {
        s
    }
}

/// `s` without the white space at either end.
pub open spec fn trimmed(s: Seq<char>) -> Seq<char> {
    trim_end(trim_start(s))
}

/// Where the text in `chars[from..to]` starts and ends once trimmed.
pub fn trim_range(chars: &[char], from: usize, to: usize) -> (r: (usize, usize))
    requires
        from <= to <= chars@.len(),
    ensures
        from <= r.0 <= r.1 <= to,
        chars@.subrange(r.0 as int, r.1 as int) == trimmed(chars@.subrange(from as int, to as int)),
{
    let ghost whole = chars@.subrange(from as int, to as int);
    let mut a: usize = from;
    while a < to && is_white_space(chars[a])
        invariant
            from <= a <= to <= chars@.len(),
            whole == chars@.subrange(from as int, to as int),
            trim_start(whole) == trim_start(chars@.subrange(a as int, to as int)),
        decreases to - a,
    {
        assert(chars@.subrange(a as int, to as int).drop_first() =~= chars@.subrange(
            a + 1,
            to as int,
        ));
        a += 1;
    }
    let ghost left = chars@.subrange(a as int, to as int);
    assert(trim_start(whole) == left);
    let mut b: usize = to;
    while a < b && is_white_space(chars[b - 1])
        invariant
            from <= a <= b <= to <= chars@.len(),
            left == chars@.subrange(a as int, to as int),
            trim_end(left) == trim_end(chars@.subrange(a as int, b as int)),
        decreases b - a,
    {
        assert(chars@.subrange(a as int, b as int).drop_last() =~= chars@.subrange(
            a as int,
            b - 1,
        ));
        b -= 1;
    }
    (a, b)
}

/// `text` without the white space at either end.
pub fn trim(text: &str) -> (r: String)
    ensures
        r@ == trimmed(text@),
{
    let chars = chars_of(text);
    let (a, b) = trim_range(chars.as_slice(), 0, chars.len());
    assert(chars@.subrange(0, chars@.len() as int) =~= text@);
    string_of(chars.as_slice(), a, b)
}

/// `c` with an ASCII capital made small.
pub open spec fn lower(c: char) -> char {
    if 'A' <= c <= 'Z' {
        ((c as u8) + 32) as char
    } else {
        c
    }
}

/// `s` with its ASCII capitals made small.
pub open spec fn lowered(s: Seq<char>) -> Seq<char> {
    s.map_values(|c: char| lower(c))
}

/// `c` with an ASCII capital made small.
pub fn lower_char(c: char) -> (r: char)
    ensures
        r == lower(c),
{
    if 'A' <= c && c <= 'Z' {
        let b: u8 = c as u8;
        (b + 32) as char
    } else {
        c
    }
}

/// `text` with its ASCII capitals made small.
pub fn to_lower(text: &str) -> (r: String)
    ensures
        r@ == lowered(text@),
{
    let chars = chars_of(text);
    let mut r = String::new();
    let mut i: usize = 0;
    while i < chars.len()
        invariant
            i <= chars@.len(),
            chars@ == text@,
            r@ == lowered(text@.take(i as int)),
        decreases chars@.len() - i,
    {
        r.push(lower_char(chars[i]));
        assert(lowered(text@.take(i + 1)) =~= lowered(text@.take(i as int)).push(
            lower(text@[i as int]),
        ));
        i += 1;
    }
    assert(text@.take(text@.len() as int) =~= text@);
    r
}

/// Whether `a` and `b` hold the same characters.
pub fn same(a: &str, b: &str) -> (r: bool)
    ensures
        r == (a@ == b@),
{
    let x = chars_of(a);
    let y = chars_of(b);
    if x.len() != y.len() {
        return false;
    }
    let mut i: usize = 0;
    while i < x.len()
        invariant
            i <= x@.len(),
            x@.len() == y@.len(),
            x@ == a@,
            y@ == b@,
            forall|k: int| 0 <= k < i ==> x@[k] == y@[k],
        decreases x@.len() - i,
    {
        if x[i] != y[i] {
            return false;
        }
        i += 1;
    }
    assert(x@ =~= y@);
    true
}

/// Whether `a` and `b` are the same text but for the case of ASCII letters.
pub fn same_ignoring_case(a: &str, b: &str) -> (r: bool)
    ensures
        r == (lowered(a@) == lowered(b@)),
{
    same(to_lower(a).as_str(), to_lower(b).as_str())
}

/// Whether `text` starts with `head`.
pub fn starts_with(text: &str, head: &str) -> (r: bool)
    ensures
        r == head@.is_prefix_of(text@),
{
    let t = chars_of(text);
    let h = chars_of(head);
    matches_at(t.as_slice(), 0, h.as_slice())
}

/// Whether `pat` stands in `chars` at position `at`.
pub fn matches_at(chars: &[char], at: usize, pat: &[char]) -> (r: bool)
    requires
        at <= chars@.len(),
    ensures
        r == pat@.is_prefix_of(chars@.skip(at as int)),
{
    let room: usize = chars.len() - at;
    if room < pat.len() {
        return false;
    }
    let mut i: usize = 0;
    while i < pat.len()
        invariant
            at + room == chars@.len() <= usize::MAX,
            i <= pat@.len() <= room,
            forall|k: int| 0 <= k < i ==> chars@.skip(at as int)[k] == pat@[k],
        decreases pat@.len() - i,
    {
        if chars[at + i] != pat[i] {
            assert(chars@.skip(at as int)[i as int] != pat@[i as int]);
            return false;
        }
        i += 1;
    }
    assert(pat@ =~= chars@.skip(at as int).subrange(0, pat@.len() as int));
    true
}

/// `s` with every occurrence of `pat` replaced by `with`, found from left to
/// right without overlap.
pub open spec fn replaced(s: Seq<char>, pat: Seq<char>, with: Seq<char>) -> Seq<char>
    decreases s.len(),
{
    if s.len() == 0 || pat.len() == 0 {
        s
    } else if pat.is_prefix_of(s) {
        with + replaced(s.skip(pat.len() as int), pat, with)
    } else {
        seq![s[0]] + replaced(s.skip(1), pat, with)
    }
}

/// `text` with every occurrence of `pat` replaced by `with`.
pub fn replace(text: &str, pat: &str, with: &str) -> (r: String)
    requires
        pat@.len() > 0,
    ensures
        r@ == replaced(text@, pat@, with@),
{
    let t = chars_of(text);
    let p = chars_of(pat);
    let mut r = String::new();
    let mut i: usize = 0;
    assert(t@.skip(0) =~= text@);
    while i < t.len()
        invariant
            i <= t@.len(),
            t@ == text@,
            p@ == pat@,
            pat@.len() > 0,
            replaced(text@, pat@, with@) =~= r@ + replaced(t@.skip(i as int), pat@, with@),
        decreases t@.len() - i,
    {
        let ghost rest = t@.skip(i as int);
        if matches_at(t.as_slice(), i, p.as_slice()) {
            r.append(with);
            assert(rest.skip(p@.len() as int) =~= t@.skip(i + p@.len()));
            i += p.len();
        } else {
            r.push(t[i]);
            assert(rest.skip(1) =~= t@.skip(i + 1));
            i += 1;
        }
    }
    r
}

/// The decimal digit `d`.
pub open spec fn digit(d: nat) -> char {
    ((48 + d) as u8) as char
}

/// `n` written in decimal.
pub open spec fn decimal(n: nat) -> Seq<char>
    decreases n,
{
    if n < 10 {
        seq![digit(n)]
    } else {
        decimal(n / 10).push(digit(n % 10))
    }
}

/// `n` written in decimal.
pub fn show(n: u64) -> (r: String)
    ensures
        r@ == decimal(n as nat),
    decreases n,
{
    let last: char = (48 + (n % 10) as u8) as char;
    let mut r = if n < 10 {
        String::new()
    } else {
        show(n / 10)
    };
    r.push(last);
    assert(n < 10 ==> r@ =~= seq![digit(n as nat)]);
    r
}

/// Whether `c` is a decimal digit.
pub open spec fn is_digit(c: char) -> bool {
    '0' <= c <= '9'
}

/// The number that the digits `s` write.
pub open spec fn digits_value(s: Seq<char>) -> nat
    decreases s.len(),
{
    if s.len() == 0 {
        0
    } else {
        digits_value(s.drop_last()) * 10 + ((s.last() as u32 - '0' as u32) as nat)
    }
}

/// The digits of `s`, which may start with a plus sign.
pub open spec fn unsigned_digits(s: Seq<char>) -> Seq<char> {
    if s.len() > 0 && s[0] == '+' {
        s.skip(1)
    } else {
        s
    }
}

/// The number that `s` writes, if it writes one that is at most `max`: an
/// optional plus sign and at least one digit, nothing else.
pub open spec fn unsigned(s: Seq<char>, max: nat) -> Option<nat> {
    let d = unsigned_digits(s);
    if d.len() > 0 && (forall|i: int| 0 <= i < d.len() ==> is_digit(d[i])) && digits_value(d) <= max {
        Some(digits_value(d))
    } else {
        None
    }
}

/// A prefix of digits writes no more than the whole.
proof fn lemma_prefix_value(s: Seq<char>, n: int)
    requires
        0 <= n <= s.len(),
    ensures
        digits_value(s.take(n)) <= digits_value(s),
    decreases s.len(),
{
    if n == s.len() {
        assert(s.take(n) =~= s);
    } else {
        lemma_prefix_value(s.drop_last(), n);
        assert(s.drop_last().take(n) =~= s.take(n));
    }
}

/// Reads a number that is at most `max`.
pub fn parse_unsigned(text: &str, max: u64) -> (r: Option<u64>)
    ensures
        match r {
            Some(v) => unsigned(text@, max as nat) == Some(v as nat),
            None => unsigned(text@, max as nat) is None,
        },
{
    let t = chars_of(text);
    let start: usize = if t.len() > 0 && t[0] == '+' {
        1
    } else {
        0
    };
    let ghost d = unsigned_digits(text@);
    assert(d =~= t@.skip(start as int));
    if start == t.len() {
        return None;
    }
    let mut value: u64 = 0;
    let mut i: usize = start;
    while i < t.len()
        invariant
            start <= i <= t@.len(),
            start < t@.len(),
            t@ == text@,
            d == unsigned_digits(text@),
            d == t@.skip(start as int),
            forall|k: int| 0 <= k < i - start ==> is_digit(d[k]),
            value == digits_value(d.take(i - start)),
            value <= max,
        decreases t@.len() - i,
    {
        let c = t[i];
        assert(c == d[i - start]);
        assert(d.take(i - start + 1).drop_last() =~= d.take(i - start));
        if !('0' <= c && c <= '9') {
            assert(!is_digit(d[i - start]));
            return None;
        }
        let x: u64 = (c as u32 - '0' as u32) as u64;
        let next: u128 = (value as u128) * 10 + (x as u128);
        assert(next == digits_value(d.take(i - start + 1)));
        if next > max as u128 {
            proof {
                lemma_prefix_value(d, i - start + 1);
            }
            return None;
        }
        value = next as u64;
        i += 1;
    }
    assert(d.take(t@.len() - start) =~= d);
    Some(value)
}

/// The texts that the strings hold.
pub open spec fn views(strings: Seq<String>) -> Seq<Seq<char>> {
    strings.map_values(|s: String| s@)
}

/// `parts` one after the other with `sep` between neighbours.
pub open spec fn joined(parts: Seq<Seq<char>>, sep: Seq<char>) -> Seq<char>
    decreases parts.len(),
{
    if parts.len() == 0 {
        seq![]
    } else if parts.len() == 1 {
        parts.first()
    } else {
        joined(parts.drop_last(), sep) + (sep + parts.last())
    }
}

/// The strings one after the other with `sep` between neighbours.
pub fn join(parts: &Vec<String>, sep: &str) -> (r: String)
    ensures
        r@ == joined(views(parts@), sep@),
{
    let mut r = String::new();
    let mut i: usize = 0;
    let ghost all = views(parts@);
    while i < parts.len()
        invariant
            i <= parts@.len(),
            all == views(parts@),
            r@ == joined(all.take(i as int), sep@),
        decreases parts@.len() - i,
    {
        if i > 0 {
            r.append(sep);
        }
        r.append(parts[i].as_str());
        proof {
            let next = all.take(i + 1);
            assert(next.drop_last() =~= all.take(i as int));
            if i == 0 {
                assert(all.take(0) =~= seq![]);
                assert(r@ =~= next.first());
            } else {
                assert(r@ =~= joined(next.drop_last(), sep@) + (sep@ + next.last()));
            }
        }
        i += 1;
    }
    assert(all.take(parts@.len() as int) =~= all);
    r
}

/// The pieces of `s` between its separators `sep`.
pub open spec fn pieces(s: Seq<char>, sep: char) -> Seq<Seq<char>>
    decreases s.len(),
{
    if s.len() == 0 {
        seq![seq![]]
    } else {
        let before = pieces(s.drop_last(), sep);
        if s.last() == sep {
            before.push(seq![])
        } else {
            before.drop_last().push(before.last().push(s.last()))
        }
    }
}

/// The lines of `s`, trimmed, without those that are then empty.
pub open spec fn full_lines(lines: Seq<Seq<char>>) -> Seq<Seq<char>>
    decreases lines.len(),
{
    if lines.len() == 0 {
        seq![]
    } else {
        let line = trimmed(lines.last());
        let before = full_lines(lines.drop_last());
        if line.len() == 0 {
            before
        } else {
            before.push(line)
        }
    }
}

/// Adds the trimmed `chars[from..to]` to `lines`, unless nothing is left of it.
fn push_full(lines: &mut Vec<String>, chars: &[char], from: usize, to: usize)
    requires
        from <= to <= chars@.len(),
    ensures
        ({
            let line = trimmed(chars@.subrange(from as int, to as int));
            views(final(lines)@) == if line.len() == 0 {
                views(old(lines)@)
            } else {
                views(old(lines)@).push(line)
            }
        }),
{
    let (a, b) = trim_range(chars, from, to);
    if a < b {
        let line = string_of(chars, a, b);
        lines.push(line);
        assert(views(lines@) =~= views(old(lines)@).push(line@));
    }
}

/// The lines of `text`, trimmed, without those that are then empty.
pub fn nonempty_lines(text: &str) -> (r: Vec<String>)
    ensures
        views(r@) == full_lines(pieces(text@, '\n')),
{
    let t = chars_of(text);
    let mut r: Vec<String> = Vec::new();
    let mut start: usize = 0;
    let mut i: usize = 0;
    assert(views(r@) =~= seq![]);
    assert(t@.take(0) =~= seq![]);
    assert(pieces(t@.take(0), '\n').drop_last() =~= seq![]);
    assert(pieces(t@.take(0), '\n').last() =~= t@.subrange(0, 0));
    while i < t.len()
        invariant
            start <= i <= t@.len(),
            t@ == text@,
            pieces(t@.take(i as int), '\n').len() > 0,
            pieces(t@.take(i as int), '\n').last() == t@.subrange(start as int, i as int),
            views(r@) == full_lines(pieces(t@.take(i as int), '\n').drop_last()),
        decreases t@.len() - i,
    {
        let ghost before = pieces(t@.take(i as int), '\n');
        let ghost after = pieces(t@.take(i + 1), '\n');
        assert(t@.take(i + 1).drop_last() =~= t@.take(i as int));
        if t[i] == '\n' {
            push_full(&mut r, t.as_slice(), start, i);
            start = i + 1;
            assert(after.drop_last() =~= before);
            assert(after.last() =~= t@.subrange(start as int, i + 1));
        } else {
            assert(after.drop_last() =~= before.drop_last());
            assert(after.last() =~= t@.subrange(start as int, i + 1));
        }
        i += 1;
    }
    push_full(&mut r, t.as_slice(), start, t.len());
    assert(t@.take(t@.len() as int) =~= t@);
    r
}

/// What is left of a text once trimmed is a run of it with no white space at
/// its ends.
pub proof fn lemma_trimmed(s: Seq<char>)
    ensures
        exists|a: int, b: int| 0 <= a <= b <= s.len() && trimmed(s) == #[trigger] s.subrange(a, b),
        trimmed(s).len() > 0 ==> !white_space(trimmed(s).first()) && !white_space(
            trimmed(s).last(),
        ),
    decreases s.len(),
{
    if s.len() > 0 && white_space(s[0]) {
        let t = s.drop_first();
        lemma_trimmed(t);
        let (a, b) = choose|a: int, b: int|
            0 <= a <= b <= t.len() && trimmed(t) == #[trigger] t.subrange(a, b);
        assert(trimmed(s) =~= s.subrange(a + 1, b + 1));
    } else {
        lemma_trim_end(s);
        let b = choose|b: int| 0 <= b <= s.len() && trim_end(s) == #[trigger] s.take(b);
        assert(trimmed(s) =~= s.subrange(0, b));
    }
}

/// What is left of a text without the white space at its end is a prefix of it.
proof fn lemma_trim_end(s: Seq<char>)
    ensures
        exists|b: int| 0 <= b <= s.len() && trim_end(s) == #[trigger] s.take(b),
        trim_end(s).len() > 0 ==> !white_space(trim_end(s).last()),
    decreases s.len(),
{
    if s.len() > 0 && white_space(s.last()) {
        let t = s.drop_last();
        lemma_trim_end(t);
        let b = choose|b: int| 0 <= b <= t.len() && trim_end(t) == #[trigger] t.take(b);
        assert(trim_end(s) =~= s.take(b));
    } else {
        assert(trim_end(s) =~= s.take(s.len() as int));
    }
}

/// A text with no white space at its ends is left as it is by trimming.
pub proof fn lemma_trimmed_fixed(s: Seq<char>)
    requires
        s.len() > 0 ==> !white_space(s.first()) && !white_space(s.last()),
    ensures
        trimmed(s) == s,
{
}

/// A text that does not hold the first character of `pat` is left as it is by
/// replacing `pat`.
pub proof fn lemma_replaced_absent(s: Seq<char>, pat: Seq<char>, with: Seq<char>)
    requires
        pat.len() > 0,
        !s.contains(pat[0]),
    ensures
        replaced(s, pat, with) == s,
    decreases s.len(),
{
    if s.len() > 0 {
        if pat.is_prefix_of(s) {
            assert(s[0] == pat[0]);
            assert(s.contains(pat[0]));
        }
        assert(!s.skip(1).contains(pat[0])) by {
            if s.skip(1).contains(pat[0]) {
                let i = choose|i: int| 0 <= i < s.skip(1).len() && s.skip(1)[i] == pat[0];
                assert(s[i + 1] == pat[0]);
            }
        }
        lemma_replaced_absent(s.skip(1), pat, with);
        assert(seq![s[0]] + s.skip(1) =~= s);
    }
}

/// No piece between separators holds one, and there is at least one piece.
pub proof fn lemma_pieces(s: Seq<char>, sep: char)
    ensures
        pieces(s, sep).len() > 0,
        forall|i: int| 0 <= i < pieces(s, sep).len() ==> !(#[trigger] pieces(s, sep)[i]).contains(sep),
    decreases s.len(),
{
    if s.len() > 0 {
        lemma_pieces(s.drop_last(), sep);
        let before = pieces(s.drop_last(), sep);
        let after = pieces(s, sep);
        assert forall|i: int| 0 <= i < after.len() implies !(#[trigger] after[i]).contains(sep) by {
            if i < before.len() - 1 {
                assert(after[i] == before[i]);
            } else if s.last() != sep {
                assert(!before[i].contains(sep));
                assert(after[i] == before[i].push(s.last()));
                if after[i].contains(sep) {
                    let k = choose|k: int| 0 <= k < after[i].len() && after[i][k] == sep;
                    assert(before[i][k] == sep);
                }
            } else if i == before.len() - 1 {
                assert(after[i] == before[i]);
            }
        }
    }
}

/// A text without separators is one piece.
pub proof fn lemma_one_piece(s: Seq<char>, sep: char)
    requires
        !s.contains(sep),
    ensures
        pieces(s, sep) == seq![s],
    decreases s.len(),
{
    if s.len() > 0 {
        assert(s.contains(s.last()));
        assert(!s.drop_last().contains(sep)) by {
            if s.drop_last().contains(sep) {
                let i = choose|i: int| 0 <= i < s.drop_last().len() && s.drop_last()[i] == sep;
                assert(s[i] == sep);
            }
        }
        lemma_one_piece(s.drop_last(), sep);
        assert(s.drop_last().push(s.last()) =~= s);
        assert(pieces(s, sep) =~= seq![s]);
    } else {
        assert(s =~= seq![]);
    }
}

/// A text without separators that follows another extends its last piece, and no
/// other.
pub proof fn lemma_last_piece(a: Seq<char>, b: Seq<char>, sep: char)
    requires
        !b.contains(sep),
    ensures
        pieces(a + b, sep).last() == pieces(a, sep).last() + b,
        pieces(a + b, sep).drop_last() == pieces(a, sep).drop_last(),
    decreases b.len(),
{
    lemma_pieces(a, sep);
    if b.len() == 0 {
        assert(a + b =~= a);
        assert(pieces(a, sep).last() + b =~= pieces(a, sep).last());
    } else {
        let c = b.drop_last();
        assert(b.contains(b.last()));
        assert(!c.contains(sep)) by {
            if c.contains(sep) {
                let i = choose|i: int| 0 <= i < c.len() && c[i] == sep;
                assert(b[i] == sep);
            }
        }
        lemma_last_piece(a, c, sep);
        assert((a + b).drop_last() =~= a + c);
        assert((a + b).last() == b.last());
        assert(pieces(a, sep).last() + c.push(b.last()) =~= (pieces(a, sep).last() + c).push(
            b.last(),
        ));
        assert(c.push(b.last()) =~= b);
    }
}

/// A character that a text does not hold is in none of its pieces.
pub proof fn lemma_absent_from_pieces(s: Seq<char>, sep: char, c: char)
    requires
        !s.contains(c),
    ensures
        forall|i: int| 0 <= i < pieces(s, sep).len() ==> !(#[trigger] pieces(s, sep)[i]).contains(c),
    decreases s.len(),
{
    lemma_pieces(s, sep);
    if s.len() > 0 {
        let t = s.drop_last();
        assert(s.contains(s.last()));
        assert(!t.contains(c)) by {
            if t.contains(c) {
                let i = choose|i: int| 0 <= i < t.len() && t[i] == c;
                assert(s[i] == c);
            }
        }
        lemma_absent_from_pieces(t, sep, c);
        lemma_pieces(t, sep);
        let before = pieces(t, sep);
        let after = pieces(s, sep);
        assert forall|i: int| 0 <= i < after.len() implies !(#[trigger] after[i]).contains(c) by {
            if i < before.len() - 1 {
                assert(after[i] == before[i]);
            } else if s.last() != sep {
                assert(!before[i].contains(c));
                assert(after[i] == before[i].push(s.last()));
                if after[i].contains(c) {
                    let k = choose|k: int| 0 <= k < after[i].len() && after[i][k] == c;
                    assert(before[i][k] == c);
                }
            } else if i == before.len() - 1 {
                assert(after[i] == before[i]);
            }
        }
    }
}

/// A character that no part and no separator holds is not in the joined text.
pub proof fn lemma_absent_from_joined(parts: Seq<Seq<char>>, sep: Seq<char>, c: char)
    requires
        !sep.contains(c),
        forall|i: int| 0 <= i < parts.len() ==> !(#[trigger] parts[i]).contains(c),
    ensures
        !joined(parts, sep).contains(c),
    decreases parts.len(),
{
    if parts.len() >= 2 {
        let front = parts.drop_last();
        let last = parts.last();
        assert forall|i: int| 0 <= i < front.len() implies !(#[trigger] front[i]).contains(c) by {
            assert(front[i] == parts[i]);
        }
        lemma_absent_from_joined(front, sep, c);
        assert(!parts[parts.len() - 1].contains(c));
        let before = joined(front, sep);
        let all = joined(parts, sep);
        if all.contains(c) {
            let k = choose|k: int| 0 <= k < all.len() && all[k] == c;
            if k < before.len() {
                assert(before[k] == c);
            } else if k < before.len() + sep.len() {
                assert(sep[k - before.len()] == c);
            } else {
                assert(last[k - before.len() - sep.len()] == c);
            }
        }
    }
}

/// Parts that hold no separator are the pieces of the joined text.
pub proof fn lemma_joined_pieces(parts: Seq<Seq<char>>, sep: char)
    requires
        parts.len() > 0,
        forall|i: int| 0 <= i < parts.len() ==> !(#[trigger] parts[i]).contains(sep),
    ensures
        pieces(joined(parts, seq![sep]), sep) == parts,
    decreases parts.len(),
{
    let last = parts.last();
    assert(!parts[parts.len() - 1].contains(sep));
    if parts.len() == 1 {
        lemma_one_piece(last, sep);
        assert(seq![last] =~= parts);
    } else {
        let front = parts.drop_last();
        assert forall|i: int| 0 <= i < front.len() implies !(#[trigger] front[i]).contains(sep) by {
            assert(front[i] == parts[i]);
        }
        lemma_joined_pieces(front, sep);
        let base = joined(front, seq![sep]).push(sep);
        assert(base.drop_last() =~= joined(front, seq![sep]));
        assert(joined(parts, seq![sep]) =~= base + last);
        lemma_last_piece(base, last, sep);
        assert(pieces(base, sep) == front.push(seq![]));
        assert(front.push(seq![]).drop_last() =~= front);
        assert(seq![] + last =~= last);
        lemma_pieces(base + last, sep);
        let all = pieces(base + last, sep);
        assert(all =~= all.drop_last().push(all.last()));
        assert(front.push(last) =~= parts);
    }
}

/// Lines that are not empty and have no white space at their ends are kept.
pub proof fn lemma_full_lines_kept(lines: Seq<Seq<char>>)
    requires
        forall|i: int|
            0 <= i < lines.len() ==> (#[trigger] lines[i]).len() > 0 && !white_space(
                lines[i].first(),
            ) && !white_space(lines[i].last()),
    ensures
        full_lines(lines) == lines,
    decreases lines.len(),
{
    if lines.len() > 0 {
        let front = lines.drop_last();
        assert forall|i: int| 0 <= i < front.len() implies (#[trigger] front[i]).len() > 0
            && !white_space(front[i].first()) && !white_space(front[i].last()) by {
            assert(front[i] == lines[i]);
        }
        lemma_full_lines_kept(front);
        let line = lines[lines.len() - 1];
        lemma_trimmed_fixed(line);
        assert(front.push(line) =~= lines);
    }
}

/// Every full line is one of the lines, trimmed, and not empty.
pub proof fn lemma_full_lines(lines: Seq<Seq<char>>)
    ensures
        forall|i: int|
            0 <= i < full_lines(lines).len() ==> (#[trigger] full_lines(lines)[i]).len() > 0
                && exists|k: int|
                0 <= k < lines.len() && full_lines(lines)[i] == trimmed(#[trigger] lines[k]),
    decreases lines.len(),
{
    if lines.len() > 0 {
        let before = lines.drop_last();
        lemma_full_lines(before);
        assert forall|i: int| 0 <= i < full_lines(lines).len() implies (#[trigger] full_lines(
            lines,
        )[i]).len() > 0 && exists|k: int|
            0 <= k < lines.len() && full_lines(lines)[i] == trimmed(#[trigger] lines[k]) by {
            if i < full_lines(before).len() {
                assert(full_lines(lines)[i] == full_lines(before)[i]);
                let k = choose|k: int|
                    0 <= k < before.len() && full_lines(before)[i] == trimmed(#[trigger] before[k]);
                assert(lines[k] == before[k]);
            } else {
                assert(full_lines(lines)[i] == trimmed(lines[lines.len() - 1]));
            }
        }
    }
}

/// A number that is written in decimal is read back as it was, and it is written
/// with digits alone.
pub proof fn law_numbers_round_trip(n: nat, max: nat)
    requires
        n <= max,
    ensures
        unsigned(decimal(n), max) == Some(n),
        decimal(n).len() > 0,
        forall|i: int| 0 <= i < decimal(n).len() ==> is_digit(#[trigger] decimal(n)[i]),
{
    lemma_decimal(n);
    assert(decimal(n)[0] != '+');
}

/// The digits of a number write it.
proof fn lemma_decimal(n: nat)
    ensures
        digits_value(decimal(n)) == n,
        decimal(n).len() > 0,
        forall|i: int| 0 <= i < decimal(n).len() ==> is_digit(#[trigger] decimal(n)[i]),
    decreases n,
{
    if n < 10 {
        assert(decimal(n).drop_last() =~= seq![]);
        reveal_with_fuel(digits_value, 2);
        assert(decimal(n).last() == digit(n));
    } else {
        lemma_decimal(n / 10);
        assert(decimal(n).drop_last() =~= decimal(n / 10));
    }
}

/// White space is the horizontal tab, the line breaks, the space, and the other
/// characters that Unicode counts as such, and nothing else.
pub proof fn law_white_space_by_code(c: char)
    ensures
        ({
            let n = c as u32;
            white_space(c) <==> 9 <= n <= 13 || n == 32 || n == 133 || n == 160 || n == 5760 || 8192
                <= n <= 8202 || n == 8232 || n == 8233 || n == 8239 || n == 8287 || n == 12288
        }),
{
}

/// Where what is left after trimming starts and ends.
proof fn lemma_trim_bounds(s: Seq<char>) -> (r: (int, int))
    ensures
        0 <= r.0 <= r.1 <= s.len(),
        trimmed(s) == s.subrange(r.0, r.1),
        forall|i: int| 0 <= i < r.0 ==> white_space(#[trigger] s[i]),
        forall|i: int| r.1 <= i < s.len() ==> white_space(#[trigger] s[i]),
    decreases s.len(),
{
    if s.len() > 0 && white_space(s[0]) {
        let t = s.drop_first();
        let (a, b) = lemma_trim_bounds(t);
        assert(s.subrange(a + 1, b + 1) =~= t.subrange(a, b));
        assert forall|i: int| 0 <= i < a + 1 implies white_space(#[trigger] s[i]) by {
            if i > 0 {
                assert(s[i] == t[i - 1]);
            }
        }
        assert forall|i: int| b + 1 <= i < s.len() implies white_space(#[trigger] s[i]) by {
            assert(s[i] == t[i - 1]);
        }
        (a + 1, b + 1)
    } else {
        (0, lemma_trim_end_bound(s))
    }
}

/// Where what is left after trimming the end ends.
proof fn lemma_trim_end_bound(s: Seq<char>) -> (b: int)
    ensures
        0 <= b <= s.len(),
        trim_end(s) == s.subrange(0, b),
        forall|i: int| b <= i < s.len() ==> white_space(#[trigger] s[i]),
    decreases s.len(),
{
    if s.len() > 0 && white_space(s.last()) {
        let t = s.drop_last();
        let b = lemma_trim_end_bound(t);
        assert(s.subrange(0, b) =~= t.subrange(0, b));
        assert forall|i: int| b <= i < s.len() implies white_space(#[trigger] s[i]) by {
            if i < t.len() {
                assert(s[i] == t[i]);
            }
        }
        b
    } else {
        assert(s.subrange(0, s.len() as int) =~= s);
        s.len() as int
    }
}

/// Trimming takes white space off both ends, all of it, and nothing else: what is
/// left is a run of the text, what was before and behind it is white space, and
/// it neither starts nor ends with any.
pub proof fn law_trimming_takes_only_white_space(s: Seq<char>)
    ensures
        exists|a: int, b: int|
            {
                &&& 0 <= a <= b <= s.len()
                &&& trimmed(s) == #[trigger] s.subrange(a, b)
                &&& forall|i: int| 0 <= i < a ==> white_space(#[trigger] s[i])
                &&& forall|i: int| b <= i < s.len() ==> white_space(#[trigger] s[i])
            },
        trimmed(s).len() > 0 ==> !white_space(trimmed(s).first()) && !white_space(
            trimmed(s).last(),
        ),
{
    let (a, b) = lemma_trim_bounds(s);
    assert(trimmed(s) == s.subrange(a, b));
    lemma_trimmed(s);
}

/// Nothing is left of a text after trimming exactly if it is all white space.
pub proof fn law_only_white_space_is_trimmed_away(s: Seq<char>)
    ensures
        trimmed(s).len() == 0 <==> forall|i: int|
            0 <= i < s.len() ==> white_space(#[trigger] s[i]),
{
    let (a, b) = lemma_trim_bounds(s);
    lemma_trimmed(s);
    if trimmed(s).len() > 0 {
        assert(s[a] == trimmed(s).first());
        assert(!white_space(s[a]));
    } else {
        assert(a == b);
    }
}

/// Making a text small changes its capital ASCII letters to the small ones, and
/// nothing else.
pub proof fn law_lowering_changes_only_capitals(s: Seq<char>)
    ensures
        lowered(s).len() == s.len(),
        forall|k: int|
            0 <= k < s.len() ==> (#[trigger] lowered(s)[k]) as u32 == if 65 <= s[k] as u32 <= 90 {
                s[k] as u32 + 32
            } else {
                s[k] as int
            },
{
}

/// Two texts are the same but for the case of ASCII letters exactly if they are
/// as long and, at each place, hold the same character or the two cases of one
/// letter.
pub proof fn law_case_is_all_that_is_ignored(a: Seq<char>, b: Seq<char>)
    ensures
        lowered(a) == lowered(b) <==> a.len() == b.len() && forall|k: int|
            0 <= k < a.len() ==> {
                ||| #[trigger] a[k] == b[k]
                ||| 65 <= a[k] as u32 <= 90 && b[k] as u32 == a[k] as u32 + 32
                ||| 65 <= b[k] as u32 <= 90 && a[k] as u32 == b[k] as u32 + 32
            },
{
    if lowered(a) == lowered(b) {
        assert(a.len() == lowered(a).len());
        assert forall|k: int| 0 <= k < a.len() implies {
            ||| #[trigger] a[k] == b[k]
            ||| 65 <= a[k] as u32 <= 90 && b[k] as u32 == a[k] as u32 + 32
            ||| 65 <= b[k] as u32 <= 90 && a[k] as u32 == b[k] as u32 + 32
        } by {
            assert(lowered(a)[k] == lowered(b)[k]);
        }
    }
    if a.len() == b.len() && forall|k: int|
        0 <= k < a.len() ==> {
            ||| #[trigger] a[k] == b[k]
            ||| 65 <= a[k] as u32 <= 90 && b[k] as u32 == a[k] as u32 + 32
            ||| 65 <= b[k] as u32 <= 90 && a[k] as u32 == b[k] as u32 + 32
        } {
        assert forall|k: int| 0 <= k < a.len() implies lowered(a)[k] == lowered(b)[k] by {
            assert(lowered(a)[k] == lower(a[k]));
            assert(lowered(b)[k] == lower(b[k]));
        }
        assert(lowered(a) =~= lowered(b));
    }
}

/// A text in which a pattern does not stand is left as it is by replacing it.
pub proof fn law_replacing_nothing(s: Seq<char>, pat: Seq<char>, with: Seq<char>)
    requires
        pat.len() > 0,
        forall|k: int|
            0 <= k <= s.len() - pat.len() ==> #[trigger] s.subrange(k, k + pat.len()) != pat,
    ensures
        replaced(s, pat, with) == s,
    decreases s.len(),
{
    if s.len() > 0 {
        if pat.is_prefix_of(s) {
            assert(s.subrange(0, 0int + pat.len()) == pat);
        }
        let t = s.skip(1);
        assert forall|k: int| 0 <= k <= t.len() - pat.len() implies #[trigger] t.subrange(
            k,
            k + pat.len(),
        ) != pat by {
            assert(t.subrange(k, k + pat.len()) =~= s.subrange(k + 1, k + 1 + pat.len()));
        }
        law_replacing_nothing(t, pat, with);
        assert(seq![s[0]] + t =~= s);
    }
}

/// Replacing a pattern replaces the first place where it stands, keeps what is
/// before that, and goes on behind it.
pub proof fn law_replacing_the_first(
    a: Seq<char>,
    pat: Seq<char>,
    b: Seq<char>,
    with: Seq<char>,
)
    requires
        pat.len() > 0,
        forall|k: int|
            0 <= k < a.len() ==> #[trigger] (a + pat + b).subrange(k, k + pat.len()) != pat,
    ensures
        replaced(a + pat + b, pat, with) == a + with + replaced(b, pat, with),
    decreases a.len(),
{
    let s = a + pat + b;
    if a.len() == 0 {
        assert(pat =~= s.subrange(0, pat.len() as int));
        assert(s.skip(pat.len() as int) =~= b);
        assert(a + with =~= with);
    } else {
        assert(s.subrange(0, 0int + pat.len()) != pat);
        assert(!pat.is_prefix_of(s));
        let c = a.skip(1);
        let t = c + pat + b;
        assert(s.skip(1) =~= t);
        assert forall|k: int| 0 <= k < c.len() implies #[trigger] t.subrange(k, k + pat.len())
            != pat by {
            assert(t.subrange(k, k + pat.len()) =~= s.subrange(k + 1, k + 1 + pat.len()));
        }
        law_replacing_the_first(c, pat, b, with);
        assert(seq![s[0]] + (c + with + replaced(b, pat, with)) =~= a + with + replaced(
            b,
            pat,
            with,
        ));
    }
}

/// Replacing one character by another keeps the length, and at every place the
/// character, unless it is the one that is replaced.
pub proof fn law_replacing_one_character(s: Seq<char>, c: char, d: char)
    ensures
        replaced(s, seq![c], seq![d]).len() == s.len(),
        forall|k: int|
            0 <= k < s.len() ==> #[trigger] replaced(s, seq![c], seq![d])[k] == if s[k] == c {
                d
            } else {
                s[k]
            },
    decreases s.len(),
{
    let r = replaced(s, seq![c], seq![d]);
    if s.len() > 0 {
        let t = s.skip(1);
        law_replacing_one_character(t, c, d);
        let rest = replaced(t, seq![c], seq![d]);
        if s[0] == c {
            assert(seq![c] =~= s.subrange(0, 1));
            assert(r =~= seq![d] + rest);
        } else {
            assert(s.subrange(0, 1)[0] == s[0]);
            assert(!seq![c].is_prefix_of(s));
            assert(r =~= seq![s[0]] + rest);
        }
        assert forall|k: int| 0 <= k < s.len() implies #[trigger] r[k] == if s[k] == c {
            d
        } else {
            s[k]
        } by {
            if k > 0 {
                assert(r[k] == rest[k - 1]);
                assert(s[k] == t[k - 1]);
            }
        }
    }
}

/// Joined parts are the first of them, the separator, and the others joined,
/// wherever one divides them; one part is itself, and none are nothing.
pub proof fn law_joining_puts_separators_between(
    a: Seq<Seq<char>>,
    b: Seq<Seq<char>>,
    part: Seq<char>,
    sep: Seq<char>,
)
    ensures
        joined(seq![], sep) == Seq::<char>::empty(),
        joined(seq![part], sep) == part,
        a.len() > 0 && b.len() > 0 ==> joined(a + b, sep) == joined(a, sep) + sep + joined(b, sep),
    decreases b.len(),
{
    if a.len() > 0 && b.len() > 0 {
        let c = b.drop_last();
        assert((a + b).drop_last() =~= a + c);
        assert((a + b).last() == b.last());
        if b.len() == 1 {
            assert(a + c =~= a);
            assert(joined(a, sep) + (sep + b.last()) =~= joined(a, sep) + sep + b.first());
        } else {
            law_joining_puts_separators_between(a, c, part, sep);
            assert(joined(a, sep) + sep + joined(c, sep) + (sep + b.last()) =~= joined(a, sep) + sep
                + (joined(c, sep) + (sep + b.last())));
        }
    }
}

/// The pieces of a text hold no separator, and joined by it they are the text
/// again: nothing is lost between them.
pub proof fn law_pieces_are_the_text(s: Seq<char>, sep: char)
    ensures
        pieces(s, sep).len() > 0,
        forall|i: int| 0 <= i < pieces(s, sep).len() ==> !(#[trigger] pieces(s, sep)[i]).contains(sep),
        joined(pieces(s, sep), seq![sep]) == s,
    decreases s.len(),
{
    lemma_pieces(s, sep);
    if s.len() == 0 {
        assert(joined(seq![Seq::<char>::empty()], seq![sep]) =~= s);
    } else {
        let t = s.drop_last();
        let c = s.last();
        law_pieces_are_the_text(t, sep);
        let before = pieces(t, sep);
        let after = pieces(s, sep);
        assert(t.push(c) =~= s);
        if c == sep {
            assert(after.drop_last() =~= before);
            assert(joined(after, seq![sep]) =~= t + (seq![sep] + seq![]));
            assert(t + (seq![sep] + seq![]) =~= s);
        } else if before.len() == 1 {
            assert(after =~= seq![before.last().push(c)]);
            assert(joined(before, seq![sep]) == before.last());
        } else {
            assert(after.drop_last() =~= before.drop_last());
            let front = joined(before.drop_last(), seq![sep]);
            assert(t == front + (seq![sep] + before.last()));
            assert(joined(after, seq![sep]) == front + (seq![sep] + before.last().push(c)));
            assert(front + (seq![sep] + before.last().push(c)) =~= t.push(c));
        }
    }
}

/// The full lines of lines are those of the first of them and then those of the
/// others; a line of white space is dropped, and every other is kept, trimmed.
pub proof fn law_full_lines_drop_only_blank_ones(
    a: Seq<Seq<char>>,
    b: Seq<Seq<char>>,
    line: Seq<char>,
)
    ensures
        full_lines(a + b) == full_lines(a) + full_lines(b),
        (forall|i: int| 0 <= i < line.len() ==> white_space(#[trigger] line[i])) ==> full_lines(
            seq![line],
        ) == Seq::<Seq<char>>::empty(),
        !(forall|i: int| 0 <= i < line.len() ==> white_space(#[trigger] line[i])) ==> full_lines(
            seq![line],
        ) == seq![trimmed(line)],
    decreases b.len(),
{
    law_only_white_space_is_trimmed_away(line);
    assert(seq![line].drop_last() =~= seq![]);
    assert(full_lines(seq![]) =~= seq![]);
    assert(seq![line].last() == line);
    assert(full_lines(seq![line]) =~= if trimmed(line).len() == 0 {
        seq![]
    } else {
        seq![trimmed(line)]
    }) by {
        reveal_with_fuel(full_lines, 2);
    }
    if b.len() == 0 {
        assert(a + b =~= a);
        assert(full_lines(a) + full_lines(b) =~= full_lines(a));
    } else {
        let c = b.drop_last();
        law_full_lines_drop_only_blank_ones(a, c, line);
        assert((a + b).drop_last() =~= a + c);
        assert((a + b).last() == b.last());
        assert(full_lines(a + b) =~= full_lines(a) + full_lines(b));
    }
}

/// A number is written with its last digit behind the rest of it, and a number
/// below ten is one digit.
pub proof fn law_numbers_are_written_in_tens(n: nat, d: nat)
    requires
        d < 10,
    ensures
        decimal(d).len() == 1,
        decimal(d)[0] as u32 == 48 + d,
        n > 0 ==> decimal(10 * n + d).drop_last() == decimal(n),
        n > 0 ==> decimal(10 * n + d).last() as u32 == 48 + d,
{
    if n > 0 {
        assert((10 * n + d) / 10 == n);
        assert((10 * n + d) % 10 == d);
        assert(decimal(10 * n + d).drop_last() =~= decimal(n));
    }
}

/// Reading a number takes digits alone, behind a plus sign or none: each digit
/// counts ten times what follows it, anything else is no number, and neither is
/// one above the limit.
pub proof fn law_numbers_are_read_in_tens(s: Seq<char>, c: char, max: nat)
    ensures
        unsigned(seq![], max) is None,
        unsigned(seq!['+'], max) is None,
        48 <= c as u32 <= 57 ==> unsigned(seq![c], max) == if c as u32 - 48 <= max {
            Some((c as u32 - 48) as nat)
        } else {
            None
        },
        (exists|i: int|
            0 <= i < s.len() && !(48 <= (#[trigger] s[i]) as u32 <= 57) && !(i == 0 && s[0] == '+'))
            ==> unsigned(s, max) is None,
        48 <= c as u32 <= 57 && s.len() > 0 ==> match unsigned(s, max) {
            Some(v) => unsigned(s.push(c), max) == if 10 * v + (c as u32 - 48) <= max {
                Some((10 * v + (c as u32 - 48)) as nat)
            } else {
                None
            },
            None => s != seq!['+'] ==> unsigned(s.push(c), max) is None,
        },
        s.len() > 0 && s[0] != '+' ==> unsigned(seq!['+'] + s, max) == unsigned(s, max),
{
    let d = unsigned_digits(s);
    assert(unsigned_digits(seq!['+']) =~= seq![]);
    if 48 <= c as u32 <= 57 {
        assert(unsigned_digits(seq![c]) =~= seq![c]);
        assert(seq![c].drop_last() =~= seq![]);
        reveal_with_fuel(digits_value, 2);
        assert(digits_value(seq![c]) == (c as u32 - 48) as nat);
    }
    if exists|i: int|
        0 <= i < s.len() && !(48 <= (#[trigger] s[i]) as u32 <= 57) && !(i == 0 && s[0] == '+') {
        let i = choose|i: int|
            0 <= i < s.len() && !(48 <= (#[trigger] s[i]) as u32 <= 57) && !(i == 0 && s[0] == '+');
        if s[0] == '+' {
            assert(d[i - 1] == s[i]);
            assert(!is_digit(d[i - 1]));
        } else {
            assert(!is_digit(d[i]));
        }
    }
    if 48 <= c as u32 <= 57 && s.len() > 0 {
        let e = unsigned_digits(s.push(c));
        assert(e =~= d.push(c));
        assert(e.drop_last() =~= d);
        assert forall|i: int| 0 <= i < d.len() implies e[i] == d[i] by {}
        assert(digits_value(e) == digits_value(d) * 10 + (c as u32 - 48));
        if unsigned(s, max) is Some {
            assert forall|i: int| 0 <= i < e.len() implies is_digit(e[i]) by {
                if i < d.len() {
                    assert(is_digit(d[i]));
                }
            }
        } else if s != seq!['+'] {
            if d.len() == 0 {
                assert(s =~= seq!['+']);
            }
            if exists|i: int| 0 <= i < d.len() && !is_digit(d[i]) {
                let i = choose|i: int| 0 <= i < d.len() && !is_digit(d[i]);
                assert(!is_digit(e[i]));
            }
        }
    }
    if s.len() > 0 && s[0] != '+' {
        assert(unsigned_digits(seq!['+'] + s) =~= s);
    }
}

/// Strings are known by their texts, as many and in order.
pub proof fn law_strings_are_known_by_their_texts(strings: Seq<String>, i: int)
    requires
        0 <= i < strings.len(),
    ensures
        views(strings).len() == strings.len(),
        views(strings)[i] == strings[i]@,
{
}

}
