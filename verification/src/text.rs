//! Text as sequences of characters: trimming, splitting on a separator, and
//! reading and writing decimal numbers.

use vstd::prelude::*;

verus! {

/// `String::push` of the standard library appends one character to the end
/// of the string and leaves what was there in place.
pub assume_specification[ String::push ](s: &mut String, ch: char)
    ensures
        final(s)@ == old(s)@.push(ch),
;

/// Whether `c` is white space: one of the code points with the Unicode
/// property `White_Space`.
pub open spec fn is_space(c: char) -> bool {
    let n = c as u32;
    ||| 0x09 <= n <= 0x0D
    ||| n == 0x20
    ||| n == 0x85
    ||| n == 0xA0
    ||| n == 0x1680
    ||| 0x2000 <= n <= 0x200A
    ||| n == 0x2028
    ||| n == 0x2029
    ||| n == 0x202F
    ||| n == 0x205F
    ||| n == 0x3000
}

/// `s` without its leading white space.
pub open spec fn trimmed_start(s: Seq<char>) -> Seq<char>
    decreases s.len(),
{
    if s.len() > 0 && is_space(s[0]) {
        trimmed_start(s.drop_first())
    } else {
        s
    }
}

/// `s` without its trailing white space.
pub open spec fn trimmed_end(s: Seq<char>) -> Seq<char>
    decreases s.len(),
{
    if s.len() > 0 && is_space(s.last()) {
        trimmed_end(s.drop_last())
    } else {
        s
    }
}

/// `s` without leading and trailing white space.
pub open spec fn trimmed(s: Seq<char>) -> Seq<char> {
    trimmed_end(trimmed_start(s))
}

/// The pieces of `rest` between occurrences of `sep`, found from left to
/// right without overlap, where `current` is what has been read of the first
/// piece so far.
pub open spec fn pieces(current: Seq<char>, rest: Seq<char>, sep: Seq<char>) -> Seq<Seq<char>>
    decreases rest.len(),
{
    if rest.len() == 0 {
        seq![current]
    } else if sep.len() > 0 && sep.is_prefix_of(rest) {
        seq![current] + pieces(Seq::empty(), rest.skip(sep.len() as int), sep)
    } else {
        pieces(current.push(rest[0]), rest.drop_first(), sep)
    }
}

/// `s` split at every occurrence of the non-empty separator `sep`. There is
/// always at least one piece; a piece may be empty.
pub open spec fn split(s: Seq<char>, sep: Seq<char>) -> Seq<Seq<char>> {
    pieces(Seq::empty(), s, sep)
}

/// The views of a list of strings.
pub open spec fn views(list: Seq<String>) -> Seq<Seq<char>> {
    Seq::new(list.len(), |i: int| list[i]@)
}

/// `list` with `sep` between neighbours.
pub open spec fn joined(list: Seq<Seq<char>>, sep: Seq<char>) -> Seq<char>
    decreases list.len(),
{
    if list.len() == 0 {
        Seq::empty()
    } else if list.len() == 1 {
        list[0]
    } else {
        joined(list.drop_last(), sep) + sep + list.last()
    }
}

/// Whether `c` is one of the ten ASCII digits.
pub open spec fn is_digit(c: char) -> bool {
    '0' <= c <= '9'
}

/// Whether `s` holds ASCII digits only.
pub open spec fn all_digits(s: Seq<char>) -> bool {
    forall|i: int| 0 <= i < s.len() ==> is_digit(#[trigger] s[i])
}

/// The digit `0..=9` that the character `c` stands for.
pub open spec fn digit_value(c: char) -> nat {
    (c as nat - 48) as nat
}

/// The character of the digit `d`, for `d < 10`.
pub open spec fn digit_char(d: nat) -> char {
    (d + 48) as char
}

/// The number that the digits of `s` write in base ten; 0 for no digits.
pub open spec fn number(s: Seq<char>) -> nat
    decreases s.len(),
{
    if s.len() == 0 {
        0
    } else {
        number(s.drop_last()) * 10 + digit_value(s.last())
    }
}

/// What an unsigned integer in text stands for: an optional `+`, then one or
/// more digits. `None` for any other text.
pub open spec fn unsigned_text(s: Seq<char>) -> Option<nat> {
    let body = if s.len() > 0 && s[0] == '+' {
        s.drop_first()
    } else {
        s
    };
    if body.len() > 0 && all_digits(body) {
        Some(number(body))
    } else {
        None
    }
}

/// What an unsigned integer of 16 bits in text stands for: as
/// `unsigned_text`, and the number no greater than 65535.
pub open spec fn u16_text(s: Seq<char>) -> Option<u16> {
    match unsigned_text(s) {
        Some(n) => if n <= u16::MAX {
            Some(n as u16)
        } else {
            None
        },
        None => None,
    }
}

/// The shortest decimal writing of `n`.
pub open spec fn decimal(n: nat) -> Seq<char>
    decreases n,
{
    if n < 10 {
        seq![digit_char(n)]
    } else {
        decimal(n / 10).push(digit_char(n % 10))
    }
}

/// `n` in exactly two digits, for `n < 100`.
pub open spec fn two_digits(n: nat) -> Seq<char> {
    seq![digit_char(n / 10), digit_char(n % 10)]
}

/// `n` in decimal, with zeros in front up to four digits.
pub open spec fn four_digits_or_more(n: nat) -> Seq<char> {
    if n < 10 {
        seq!['0', '0', '0'] + decimal(n)
    } else if n < 100 {
        seq!['0', '0'] + decimal(n)
    } else if n < 1000 {
        seq!['0'] + decimal(n)
    } else {
        decimal(n)
    }
}

/// Appending a digit never makes the number smaller.
pub proof fn lemma_number_prefix(s: Seq<char>, k: int)
    requires
        0 <= k <= s.len(),
    ensures
        number(s.take(k)) <= number(s),
    decreases s.len() - k,
{
    if k == s.len() {
        assert(s.take(k) =~= s);
    } else {
        lemma_number_prefix(s, k + 1);
        assert(s.take(k + 1).drop_last() =~= s.take(k));
    }
}

/// Joining a list that begins with `first` and goes on with a list that is
/// not empty puts the separator after `first`.
pub proof fn lemma_joined_first(first: Seq<char>, others: Seq<Seq<char>>, sep: Seq<char>)
    requires
        others.len() >= 1,
    ensures
        joined(seq![first] + others, sep) == first + sep + joined(others, sep),
    decreases others.len(),
{
    let list = seq![first] + others;
    assert(list.last() == others.last());
    assert(joined(list, sep) == joined(list.drop_last(), sep) + sep + list.last());
    if others.len() == 1 {
        assert(list.drop_last() =~= seq![first]);
        assert(joined(seq![first], sep) == first);
        assert(joined(others, sep) == others[0]);
    } else {
        let shorter = others.drop_last();
        assert(list.drop_last() =~= seq![first] + shorter);
        lemma_joined_first(first, shorter, sep);
        assert(joined(others, sep) == joined(shorter, sep) + sep + others.last());
        assert(first + sep + joined(shorter, sep) + sep + others.last() =~= first + sep + (joined(
            shorter,
            sep,
        ) + sep + others.last()));
    }
}

/// The pieces of a text, joined with the separator, give back what was read
/// so far and what was left to read.
pub proof fn lemma_joined_pieces(current: Seq<char>, rest: Seq<char>, sep: Seq<char>)
    ensures
        pieces(current, rest, sep).len() >= 1,
        joined(pieces(current, rest, sep), sep) == current + rest,
    decreases rest.len(),
{
    if rest.len() == 0 {
        assert(current + rest =~= current);
    } else if sep.len() > 0 && sep.is_prefix_of(rest) {
        let after = rest.skip(sep.len() as int);
        let others = pieces(Seq::empty(), after, sep);
        lemma_joined_pieces(Seq::empty(), after, sep);
        lemma_joined_first(current, others, sep);
        assert(current + sep + (Seq::<char>::empty() + after) =~= current + rest);
    } else {
        lemma_joined_pieces(current.push(rest[0]), rest.drop_first(), sep);
        assert(current.push(rest[0]) + rest.drop_first() =~= current + rest);
    }
}

/// Splitting a text and joining the pieces with the same separator gives the
/// text back.
pub proof fn lemma_join_undoes_split(s: Seq<char>, sep: Seq<char>)
    ensures
        split(s, sep).len() >= 1,
        joined(split(s, sep), sep) == s,
{
    lemma_joined_pieces(Seq::empty(), s, sep);
    assert(Seq::<char>::empty() + s =~= s);
}

/// Whether `c` is white space.
pub fn is_whitespace(c: char) -> (b: bool)
    ensures
        b == is_space(c),
{
    let n: u32 = c as u32;
    (0x09 <= n && n <= 0x0D) || n == 0x20 || n == 0x85 || n == 0xA0 || n == 0x1680 || (0x2000 <= n
        && n <= 0x200A) || n == 0x2028 || n == 0x2029 || n == 0x202F || n == 0x205F || n == 0x3000
}

/// The characters of `s`, in order.
pub fn chars_of(s: &str) -> (v: Vec<char>)
    ensures
        v@ == s@,
{
    let mut v: Vec<char> = Vec::new();
    for c in it: s.chars()
        invariant
            it.seq() == s@,
            v@ == s@.take(it.index() as int),
    {
        v.push(c);
        assert(s@.take(it.index() + 1) =~= s@.take(it.index() as int).push(c));
    }
    assert(s@.take(s@.len() as int) =~= s@);
    v
}

/// Appends the characters `v[from..to]`.
pub(crate) fn append_chars(out: &mut String, v: &Vec<char>, from: usize, to: usize)
    requires
        from <= to <= v.len(),
    ensures
        final(out)@ == old(out)@ + v@.subrange(from as int, to as int),
{
    let mut i: usize = from;
    assert(out@ =~= old(out)@ + v@.subrange(from as int, from as int));
    while i < to
        invariant
            from <= i <= to <= v.len(),
            out@ == old(out)@ + v@.subrange(from as int, i as int),
        decreases to - i,
    {
        out.push(v[i]);
        assert(old(out)@ + v@.subrange(from as int, i + 1) =~= (old(out)@ + v@.subrange(
            from as int,
            i as int,
        )).push(v@[i as int]));
        i += 1;
    }
}

/// The text made of the characters `v[from..to]`.
pub(crate) fn string_of(v: &Vec<char>, from: usize, to: usize) -> (s: String)
    requires
        from <= to <= v.len(),
    ensures
        s@ == v@.subrange(from as int, to as int),
{
    let mut s = String::new();
    append_chars(&mut s, v, from, to);
    assert(s@ =~= v@.subrange(from as int, to as int));
    s
}

/// A copy of the characters `v[from..to]`.
pub(crate) fn copy_range(v: &Vec<char>, from: usize, to: usize) -> (r: Vec<char>)
    requires
        from <= to <= v.len(),
    ensures
        r@ == v@.subrange(from as int, to as int),
{
    let mut r: Vec<char> = Vec::new();
    let mut i: usize = from;
    while i < to
        invariant
            from <= i <= to <= v.len(),
            r@ == v@.subrange(from as int, i as int),
        decreases to - i,
    {
        r.push(v[i]);
        assert(v@.subrange(from as int, i + 1) =~= v@.subrange(from as int, i as int).push(
            v@[i as int],
        ));
        i += 1;
    }
    r
}

/// Whether the characters `v[from..to]` are all digits.
pub(crate) fn digits_in(v: &Vec<char>, from: usize, to: usize) -> (b: bool)
    requires
        from <= to <= v.len(),
    ensures
        b == all_digits(v@.subrange(from as int, to as int)),
{
    let ghost part = v@.subrange(from as int, to as int);
    let mut i: usize = from;
    while i < to
        invariant
            from <= i <= to <= v.len(),
            part == v@.subrange(from as int, to as int),
            forall|j: int| 0 <= j < i - from ==> is_digit(#[trigger] part[j]),
        decreases to - i,
    {
        let c = v[i];
        if !(c >= '0' && c <= '9') {
            assert(!is_digit(part[i - from]));
            return false;
        }
        i += 1;
    }
    true
}

/// Where `v` begins and ends once its leading and trailing white space is
/// left out.
pub(crate) fn trim_range(v: &Vec<char>) -> (r: (usize, usize))
    ensures
        r.0 <= r.1 <= v.len(),
        v@.subrange(r.0 as int, r.1 as int) == trimmed(v@),
{
    let n = v.len();
    let mut a: usize = 0;
    assert(v@.subrange(0, n as int) =~= v@);
    while a < n && is_whitespace(v[a])
        invariant
            a <= n == v.len(),
            trimmed_start(v@) == trimmed_start(v@.subrange(a as int, n as int)),
        decreases n - a,
    {
        assert(v@.subrange(a as int, n as int).drop_first() =~= v@.subrange(a + 1, n as int));
        a += 1;
    }
    assert(trimmed_start(v@) == v@.subrange(a as int, n as int));
    let mut b: usize = n;
    while b > a && is_whitespace(v[b - 1])
        invariant
            a <= b <= n == v.len(),
            trimmed(v@) == trimmed_end(v@.subrange(a as int, b as int)),
        decreases b - a,
    {
        assert(v@.subrange(a as int, b as int).drop_last() =~= v@.subrange(a as int, b - 1));
        b -= 1;
    }
    (a, b)
}

/// `s` without leading and trailing white space.
pub fn trim(s: &str) -> (r: String)
    ensures
        r@ == trimmed(s@),
{
    let v = chars_of(s);
    let (a, b) = trim_range(&v);
    string_of(&v, a, b)
}

/// Whether the two texts hold the same characters.
pub fn same_text(a: &str, b: &str) -> (r: bool)
    ensures
        r == (a@ == b@),
{
    let x = chars_of(a);
    let y = chars_of(b);
    if x.len() != y.len() {
        return false;
    }
    let mut i: usize = 0;
    while i < x.len()
        invariant
            i <= x.len() == y.len(),
            x@ == a@,
            y@ == b@,
            x@.take(i as int) == y@.take(i as int),
        decreases x.len() - i,
    {
        if x[i] != y[i] {
            return false;
        }
        assert(x@.take(i + 1) =~= x@.take(i as int).push(x@[i as int]));
        assert(y@.take(i + 1) =~= y@.take(i as int).push(y@[i as int]));
        i += 1;
    }
    assert(x@.take(x@.len() as int) =~= x@);
    assert(y@.take(y@.len() as int) =~= y@);
    true
}

/// Whether `sep` stands in `v` at position `at`.
fn stands_at(v: &Vec<char>, at: usize, sep: &Vec<char>) -> (b: bool)
    requires
        at <= v.len(),
    ensures
        b == sep@.is_prefix_of(v@.subrange(at as int, v.len() as int)),
{
    let n = v.len();
    let m = sep.len();
    let ghost rest = v@.subrange(at as int, n as int);
    if m > n - at {
        return false;
    }
    let mut j: usize = 0;
    while j < m
        invariant
            j <= m == sep.len(),
            at + m <= n == v.len(),
            rest == v@.subrange(at as int, n as int),
            sep@.take(j as int) == rest.take(j as int),
        decreases m - j,
    {
        if v[at + j] != sep[j] {
            assert(rest.subrange(0, m as int)[j as int] != sep@[j as int]);
            return false;
        }
        assert(sep@.take(j + 1) =~= sep@.take(j as int).push(sep@[j as int]));
        assert(rest.take(j + 1) =~= rest.take(j as int).push(rest[j as int]));
        j += 1;
    }
    assert(sep@.take(m as int) =~= sep@);
    true
}

/// Splits `s` at every occurrence of `sep`, from left to right. An empty
/// `sep` occurs nowhere.
pub fn split_text(s: &str, sep: &str) -> (parts: Vec<String>)
    ensures
        views(parts@) == split(s@, sep@),
        parts.len() >= 1,
{
    let v = chars_of(s);
    let p = chars_of(sep);
    let n = v.len();
    let m = p.len();
    let mut parts: Vec<String> = Vec::new();
    let mut start: usize = 0;
    let mut i: usize = 0;
    assert(v@.subrange(0, 0) =~= Seq::<char>::empty());
    assert(v@.subrange(0, n as int) =~= v@);
    assert(views(parts@) =~= Seq::<Seq<char>>::empty());
    while i < n
        invariant
            start <= i <= n == v.len(),
            m == p.len(),
            split(v@, p@) == views(parts@) + pieces(
                v@.subrange(start as int, i as int),
                v@.subrange(i as int, n as int),
                p@,
            ),
        decreases n - i,
    {
        let ghost current = v@.subrange(start as int, i as int);
        let ghost rest = v@.subrange(i as int, n as int);
        let ghost before = views(parts@);
        if m > 0 && stands_at(&v, i, &p) {
            let piece = string_of(&v, start, i);
            parts.push(piece);
            i += m;
            start = i;
            assert(views(parts@) =~= before.push(current));
            assert(rest.skip(m as int) =~= v@.subrange(i as int, n as int));
            assert(v@.subrange(start as int, i as int) =~= Seq::<char>::empty());
            assert(before + (seq![current] + pieces(Seq::empty(), rest.skip(m as int), p@))
                =~= before.push(current) + pieces(Seq::empty(), rest.skip(m as int), p@));
        } else {
            i += 1;
            assert(current.push(rest[0]) =~= v@.subrange(start as int, i as int));
            assert(rest.drop_first() =~= v@.subrange(i as int, n as int));
        }
    }
    let ghost before = views(parts@);
    let last = string_of(&v, start, n);
    parts.push(last);
    assert(views(parts@) =~= before.push(v@.subrange(start as int, n as int)));
    assert(before + seq![v@.subrange(start as int, n as int)] =~= before.push(
        v@.subrange(start as int, n as int),
    ));
    parts
}

/// The character that writes the digit `d`.
pub(crate) fn digit_of(d: u8) -> (c: char)
    requires
        d < 10,
    ensures
        c == digit_char(d as nat),
        is_digit(c),
{
    (48u8 + d) as char
}

/// Reads an unsigned integer of at most 16 bits, as `u16::from_str` does:
/// an optional `+`, then one or more digits, the number no greater than
/// 65535.
pub fn parse_u16(s: &str) -> (r: Option<u16>)
    ensures
        r == u16_text(s@),
{
    let v = chars_of(s);
    let n = v.len();
    let start: usize = if n > 0 && v[0] == '+' {
        1
    } else {
        0
    };
    let ghost body = v@.subrange(start as int, n as int);
    assert(body =~= if v@.len() > 0 && v@[0] == '+' {
        v@.drop_first()
    } else {
        v@
    });
    if start == n {
        return None;
    }
    let mut acc: u32 = 0;
    let mut i: usize = start;
    while i < n
        invariant
            start <= i <= n == v.len(),
            body == v@.subrange(start as int, n as int),
            body.len() > 0,
            unsigned_text(s@) == if all_digits(body) {
                Some(number(body))
            } else {
                None
            },
            all_digits(body.take(i - start)),
            acc == number(body.take(i - start)),
            acc <= u16::MAX,
        decreases n - i,
    {
        let c = v[i];
        if !(c >= '0' && c <= '9') {
            assert(!is_digit(body[i - start]));
            return None;
        }
        let d: u32 = c as u32 - 48;
        assert(body.take(i + 1 - start).drop_last() =~= body.take(i - start));
        assert(body.take(i + 1 - start).last() == c);
        acc = acc * 10 + d;
        if acc > 65535 {
            proof {
                if all_digits(body) {
                    lemma_number_prefix(body, i + 1 - start);
                }
            }
            return None;
        }
        i += 1;
    }
    assert(body.take(n - start) =~= body);
    Some(acc as u16)
}

/// Appends the shortest decimal writing of `n`.
pub(crate) fn append_decimal(out: &mut String, n: u64)
    ensures
        final(out)@ == old(out)@ + decimal(n as nat),
    decreases n,
{
    if n >= 10 {
        append_decimal(out, n / 10);
    }
    let ghost before = out@;
    out.push(digit_of((n % 10) as u8));
    assert(old(out)@ + decimal(n as nat) =~= before.push(digit_char((n % 10) as nat)));
}

/// Appends `n` in exactly two digits.
pub(crate) fn append_two_digits(out: &mut String, n: u32)
    requires
        n < 100,
    ensures
        final(out)@ == old(out)@ + two_digits(n as nat),
{
    out.push(digit_of((n / 10) as u8));
    out.push(digit_of((n % 10) as u8));
    assert(out@ =~= old(out)@ + two_digits(n as nat));
}

/// Appends the texts of `list` with `sep` between neighbours.
pub(crate) fn append_joined(out: &mut String, list: &Vec<String>, sep: &str)
    ensures
        final(out)@ == old(out)@ + joined(views(list@), sep@),
{
    let ghost all = views(list@);
    let mut i: usize = 0;
    assert(all.take(0) =~= Seq::<Seq<char>>::empty());
    while i < list.len()
        invariant
            i <= list.len(),
            all == views(list@),
            out@ == old(out)@ + joined(all.take(i as int), sep@),
        decreases list.len() - i,
    {
        let ghost before = all.take(i as int);
        let ghost next = all.take(i + 1);
        assert(next.drop_last() =~= before);
        assert(next.last() == list@[i as int]@);
        if i > 0 {
            out.append(sep);
        }
        out.append(list[i].as_str());
        assert(out@ =~= old(out)@ + joined(next, sep@));
        i += 1;
    }
    assert(all.take(list.len() as int) =~= all);
}

} // verus!
