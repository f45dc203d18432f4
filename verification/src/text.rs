//! Text seen as sequences of characters, and the few operations on it that the other modules share.

use vstd::prelude::*;

verus! {

// ---------------------------------------------------------------------------
// What the operations mean
// ---------------------------------------------------------------------------
/// The contents of a vector of strings.
pub open spec fn texts(v: Seq<String>) -> Seq<Seq<char>> {
    v.map_values(|s: String| s@)
}

/// The text in an optional argument.
pub open spec fn seen_option(o: Option<&str>) -> Option<Seq<char>> {
    match o {
        Some(s) => Some(s@),
        None => None,
    }
}

/// The characters with the Unicode property `White_Space`.
pub open spec fn white(c: char) -> bool {
    ||| '\u{9}' <= c <= '\u{d}'
    ||| c == ' '
    ||| c == '\u{85}'
    ||| c == '\u{a0}'
    ||| c == '\u{1680}'
    ||| '\u{2000}' <= c <= '\u{200a}'
    ||| c == '\u{2028}'
    ||| c == '\u{2029}'
    ||| c == '\u{202f}'
    ||| c == '\u{205f}'
    ||| c == '\u{3000}'
}

pub open spec fn ascii_alphanumeric(c: char) -> bool {
    'a' <= c <= 'z' || 'A' <= c <= 'Z' || '0' <= c <= '9'
}

/// `s` without its leading white space.
pub open spec fn trimmed_start(s: Seq<char>) -> Seq<char>
    decreases s.len(),
{
    if s.len() > 0 && white(s[0]) {
        trimmed_start(s.drop_first())
    } else {
        s
    }
}

/// `s` without its trailing white space.
pub open spec fn trimmed_end(s: Seq<char>) -> Seq<char>
    decreases s.len(),
{
    if s.len() > 0 && white(s.last()) {
        trimmed_end(s.drop_last())
    } else {
        s
    }
}

/// `s` without the white space at either end.
pub open spec fn trimmed(s: Seq<char>) -> Seq<char> {
    trimmed_end(trimmed_start(s))
}

/// `s` without any leading `c`.
pub open spec fn without_leading(s: Seq<char>, c: char) -> Seq<char>
    decreases s.len(),
{
    if s.len() > 0 && s[0] == c {
        without_leading(s.drop_first(), c)
    } else {
        s
    }
}

/// `s` without any trailing `c`.
pub open spec fn without_trailing(s: Seq<char>, c: char) -> Seq<char>
    decreases s.len(),
{
    if s.len() > 0 && s.last() == c {
        without_trailing(s.drop_last(), c)
    } else {
        s
    }
}

pub open spec fn has_prefix(s: Seq<char>, prefix: Seq<char>) -> bool {
    prefix.len() <= s.len() && s.take(prefix.len() as int) == prefix
}

/// `s` with `prefix` taken off its front as often as it stands there.
pub open spec fn without_prefixes(s: Seq<char>, prefix: Seq<char>) -> Seq<char>
    decreases s.len(),
{
    if prefix.len() > 0 && has_prefix(s, prefix) {
        without_prefixes(s.skip(prefix.len() as int), prefix)
    } else {
        s
    }
}

/// `part` stands somewhere in `s`.
pub open spec fn contains_text(s: Seq<char>, part: Seq<char>) -> bool {
    exists|i: int| has_prefix_at(s, part, i)
}

pub open spec fn has_prefix_at(s: Seq<char>, part: Seq<char>, i: int) -> bool {
    0 <= i && i + part.len() <= s.len() && s.subrange(i, i + part.len()) == part
}

/// The pieces of `s` between the separators: a separator starts a new piece, any other character
/// belongs to the piece before it.
pub open spec fn split_on(s: Seq<char>, sep: char) -> Seq<Seq<char>>
    decreases s.len(),
{
    if s.len() == 0 {
        seq![Seq::empty()]
    } else {
        let before = split_on(s.drop_last(), sep);
        if s.last() == sep {
            before.push(Seq::empty())
        } else {
            before.drop_last().push(before.last().push(s.last()))
        }
    }
}

/// A line as it stands before a line feed: one carriage return at its end belongs to the line end.
pub open spec fn without_return(s: Seq<char>) -> Seq<char> {
    if s.len() > 0 && s.last() == '\r' {
        s.drop_last()
    } else {
        s
    }
}

/// The lines of `s`. Each ends in a line feed, the last one also with the text.
pub open spec fn lines_of(s: Seq<char>) -> Seq<Seq<char>> {
    let pieces = split_on(s, '\n');
    let ended = pieces.drop_last().map_values(|p: Seq<char>| without_return(p));
    if pieces.last().len() == 0 {
        ended
    } else {
        ended.push(pieces.last())
    }
}

/// The longest runs without white space, in order.
pub open spec fn words_of(s: Seq<char>) -> Seq<Seq<char>>
    decreases s.len(),
{
    if s.len() == 0 {
        Seq::empty()
    } else {
        let before = words_of(s.drop_last());
        if white(s.last()) {
            before
        } else if s.len() == 1 || white(s[s.len() - 2]) {
            before.push(seq![s.last()])
        } else {
            before.drop_last().push(before.last().push(s.last()))
        }
    }
}

pub open spec fn ascii_lower(c: char) -> char {
    if 'A' <= c <= 'Z' {
        ((c as u8) + 32) as char
    } else {
        c
    }
}

pub open spec fn lowered(s: Seq<char>) -> Seq<char> {
    s.map_values(|c: char| ascii_lower(c))
}

/// The parts in order, with `sep` between each two.
pub open spec fn joined(parts: Seq<Seq<char>>, sep: Seq<char>) -> Seq<char>
    decreases parts.len(),
{
    if parts.len() == 0 {
        Seq::empty()
    } else if parts.len() == 1 {
        parts[0]
    } else {
        joined(parts.drop_last(), sep) + sep + parts.last()
    }
}

/// `a` comes before `b` when characters are compared one by one by their code points, and a text
/// comes before its continuations. Comparing the UTF-8 bytes gives the same order.
pub open spec fn text_lt(a: Seq<char>, b: Seq<char>) -> bool
    decreases a.len(),
{
    if b.len() == 0 {
        false
    } else if a.len() == 0 {
        true
    } else if a[0] != b[0] {
        a[0] < b[0]
    } else {
        text_lt(a.drop_first(), b.drop_first())
    }
}

pub open spec fn digit(n: int) -> char
    recommends
        0 <= n < 10,
{
    (48 + n) as char
}

/// The decimal digits of a number.
pub open spec fn digits(n: nat) -> Seq<char>
    decreases n,
{
    if n < 10 {
        seq![digit(n as int)]
    } else {
        digits(n / 10).push(digit((n % 10) as int))
    }
}

/// A number as it is printed.
pub open spec fn decimal(n: int) -> Seq<char> {
    if n < 0 {
        seq!['-'] + digits((-n) as nat)
    } else {
        digits(n as nat)
    }
}

pub open spec fn hex_digit(n: int) -> char
    recommends
        0 <= n < 16,
{
    if n < 10 {
        (48 + n) as char
    } else {
        (87 + n) as char
    }
}

/// Two lower-case hexadecimal digits for each byte.
pub open spec fn hex_of(bytes: Seq<u8>) -> Seq<char>
    decreases bytes.len(),
{
    if bytes.len() == 0 {
        Seq::empty()
    } else {
        hex_of(bytes.drop_last()).push(hex_digit(bytes.last() as int / 16)).push(
            hex_digit(bytes.last() as int % 16),
        )
    }
}

// ---------------------------------------------------------------------------
// Order
// ---------------------------------------------------------------------------
pub proof fn lemma_text_lt_irreflexive(a: Seq<char>)
    ensures
        !text_lt(a, a),
    decreases a.len(),
{
    if a.len() > 0 {
        lemma_text_lt_irreflexive(a.drop_first());
    }
}

pub proof fn lemma_text_lt_transitive(a: Seq<char>, b: Seq<char>, c: Seq<char>)
    requires
        text_lt(a, b),
        text_lt(b, c),
    ensures
        text_lt(a, c),
    decreases a.len(),
{
    if a.len() > 0 && a[0] == b[0] && b[0] == c[0] {
        lemma_text_lt_transitive(a.drop_first(), b.drop_first(), c.drop_first());
    }
}

pub proof fn lemma_text_lt_total(a: Seq<char>, b: Seq<char>)
    ensures
        a == b || text_lt(a, b) || text_lt(b, a),
        !(text_lt(a, b) && text_lt(b, a)),
    decreases a.len(),
{
    if a.len() > 0 && b.len() > 0 && a[0] == b[0] {
        lemma_text_lt_total(a.drop_first(), b.drop_first());
        if a.drop_first() == b.drop_first() {
            assert(a =~= seq![a[0]] + a.drop_first());
            assert(b =~= seq![b[0]] + b.drop_first());
        }
    } else if a.len() == 0 && b.len() == 0 {
        assert(a =~= b);
    }
}

// ---------------------------------------------------------------------------
// Characters and strings
// ---------------------------------------------------------------------------
/// `String::push` of the standard library: the character stands at the end, the rest is as it was.
pub assume_specification[ String::push ](s: &mut String, c: char)
    ensures
        final(s)@ == old(s)@.push(c),
;

/// The characters of a string.
pub fn chars_of(s: &str) -> (r: Vec<char>)
    ensures
        r@ == s@,
{
    let mut out: Vec<char> = Vec::new();
    for c in it: s.chars()
        invariant
            out@ == it.seq().take(it.index() as int),
    {
        out.push(c);
    }
    out
}

/// The string of the characters from `from` up to `to`.
pub fn slice_of(chars: &[char], from: usize, to: usize) -> (r: String)
    requires
        from <= to <= chars@.len(),
    ensures
        r@ == chars@.subrange(from as int, to as int),
{
    let mut out = String::new();
    for i in from..to
        invariant
            from <= i <= to <= chars@.len(),
            out@ == chars@.subrange(from as int, i as int),
    {
        out.push(chars[i]);
    }
    out
}

/// Whether two strings hold the same characters.
pub fn same_text(a: &str, b: &str) -> (r: bool)
    ensures
        r == (a@ == b@),
{
    let x = chars_of(a);
    let y = chars_of(b);
    if x.len() != y.len() {
        return false;
    }
    for i in 0..x.len()
        invariant
            x@ == a@,
            y@ == b@,
            x@.len() == y@.len(),
            x@.take(i as int) == y@.take(i as int),
    {
        if x[i] != y[i] {
            return false;
        }
        assert(x@.take(i + 1) == x@.take(i as int).push(x@[i as int]));
        assert(y@.take(i + 1) == y@.take(i as int).push(y@[i as int]));
    }
    assert(x@.take(x@.len() as int) == x@);
    assert(y@.take(y@.len() as int) == y@);
    true
}

/// Whether `a` comes before `b`.
pub fn comes_before(a: &str, b: &str) -> (r: bool)
    ensures
        r == text_lt(a@, b@),
{
    let x = chars_of(a);
    let y = chars_of(b);
    let mut i: usize = 0;
    assert(x@.skip(0) == x@);
    assert(y@.skip(0) == y@);
    while i < x.len() && i < y.len()
        invariant
            x@ == a@,
            y@ == b@,
            i <= x@.len(),
            i <= y@.len(),
            text_lt(a@, b@) == text_lt(x@.skip(i as int), y@.skip(i as int)),
        decreases x@.len() - i,
    {
        if x[i] != y[i] {
            return x[i] < y[i];
        }
        assert(x@.skip(i as int).drop_first() == x@.skip(i + 1));
        assert(y@.skip(i as int).drop_first() == y@.skip(i + 1));
        i += 1;
    }
    i < y.len()
}

/// `a` followed by `b`.
pub fn cat(a: &str, b: &str) -> (r: String)
    ensures
        r@ == a@ + b@,
{
    let mut out = a.to_owned();
    out.append(b);
    out
}

/// `a`, `b` and `c`, one after the other.
pub fn cat3(a: &str, b: &str, c: &str) -> (r: String)
    ensures
        r@ == a@ + b@ + c@,
{
    let mut out = a.to_owned();
    out.append(b);
    out.append(c);
    out
}

// ---------------------------------------------------------------------------
// Trimming
// ---------------------------------------------------------------------------
pub fn is_white(c: char) -> (r: bool)
    ensures
        r == white(c),
{
    ('\u{9}' <= c && c <= '\u{d}') || c == ' ' || c == '\u{85}' || c == '\u{a0}' || c == '\u{1680}'
        || ('\u{2000}' <= c && c <= '\u{200a}') || c == '\u{2028}' || c == '\u{2029}' || c
        == '\u{202f}' || c == '\u{205f}' || c == '\u{3000}'
}

pub fn is_ascii_alphanumeric(c: char) -> (r: bool)
    ensures
        r == ascii_alphanumeric(c),
{
    ('a' <= c && c <= 'z') || ('A' <= c && c <= 'Z') || ('0' <= c && c <= '9')
}

/// The text without the white space at either end.
pub fn trim(s: &str) -> (r: String)
    ensures
        r@ == trimmed(s@),
{
    let chars = chars_of(s);
    let mut from: usize = 0;
    assert(chars@.skip(0) == chars@);
    while from < chars.len() && is_white(chars[from])
        invariant
            chars@ == s@,
            from <= chars@.len(),
            trimmed_start(chars@.skip(from as int)) == trimmed_start(s@),
        decreases chars@.len() - from,
    {
        assert(chars@.skip(from as int).drop_first() == chars@.skip(from + 1));
        from += 1;
    }
    let mut to: usize = chars.len();
    let ghost rest = chars@.skip(from as int);
    assert(trimmed_start(s@) == rest);
    assert(chars@.subrange(from as int, to as int) == rest);
    while to > from && is_white(chars[to - 1])
        invariant
            chars@ == s@,
            from <= to <= chars@.len(),
            trimmed_end(chars@.subrange(from as int, to as int)) == trimmed_end(rest),
        decreases to,
    {
        assert(chars@.subrange(from as int, to as int).drop_last() == chars@.subrange(
            from as int,
            to - 1,
        ));
        to -= 1;
    }
    slice_of(chars.as_slice(), from, to)
}

/// The text without any leading `c`.
pub fn strip_leading(s: &str, c: char) -> (r: String)
    ensures
        r@ == without_leading(s@, c),
{
    let chars = chars_of(s);
    let mut from: usize = 0;
    assert(chars@.skip(0) == chars@);
    while from < chars.len() && chars[from] == c
        invariant
            chars@ == s@,
            from <= chars@.len(),
            without_leading(chars@.skip(from as int), c) == without_leading(s@, c),
        decreases chars@.len() - from,
    {
        assert(chars@.skip(from as int).drop_first() == chars@.skip(from + 1));
        from += 1;
    }
    assert(chars@.subrange(from as int, chars@.len() as int) == chars@.skip(from as int));
    slice_of(chars.as_slice(), from, chars.len())
}

/// The text without any trailing `c`.
pub fn strip_trailing(s: &str, c: char) -> (r: String)
    ensures
        r@ == without_trailing(s@, c),
{
    let chars = chars_of(s);
    let mut to: usize = chars.len();
    assert(chars@.subrange(0, to as int) == chars@);
    while to > 0 && chars[to - 1] == c
        invariant
            chars@ == s@,
            to <= chars@.len(),
            without_trailing(chars@.subrange(0, to as int), c) == without_trailing(s@, c),
        decreases to,
    {
        assert(chars@.subrange(0, to as int).drop_last() == chars@.subrange(0, to - 1));
        to -= 1;
    }
    slice_of(chars.as_slice(), 0, to)
}

/// Whether `part` stands at position `i`.
fn stands_at(s: &[char], part: &[char], i: usize) -> (r: bool)
    requires
        i <= s@.len(),
    ensures
        r == has_prefix_at(s@, part@, i as int),
{
    let total: usize = s.len();
    if part.len() > total - i {
        return false;
    }
    for k in 0..part.len()
        invariant
            i + part@.len() <= s@.len() == total,
            s@.subrange(i as int, i + k) == part@.take(k as int),
    {
        if s[i + k] != part[k] {
            assert(s@.subrange(i as int, i + part@.len())[k as int] != part@[k as int]);
            return false;
        }
        assert(s@.subrange(i as int, i + k + 1) == s@.subrange(i as int, i + k).push(s@[i + k]));
        assert(part@.take(k + 1) == part@.take(k as int).push(part@[k as int]));
    }
    assert(part@.take(part@.len() as int) == part@);
    true
}

/// Whether the text begins with `prefix`.
pub fn begins_with(s: &str, prefix: &str) -> (r: bool)
    ensures
        r == has_prefix(s@, prefix@),
{
    let chars = chars_of(s);
    let start = chars_of(prefix);
    if start.len() <= chars.len() {
        assert(s@.subrange(0, prefix@.len() as int) == s@.take(prefix@.len() as int));
    }
    stands_at(chars.as_slice(), start.as_slice(), 0)
}

/// The text with `prefix` taken off its front as often as it stands there.
pub fn strip_prefixes(s: &str, prefix: &str) -> (r: String)
    ensures
        r@ == without_prefixes(s@, prefix@),
{
    let chars = chars_of(s);
    let start = chars_of(prefix);
    let mut from: usize = 0;
    assert(chars@.skip(0) == chars@);
    while start.len() > 0 && stands_at(chars.as_slice(), start.as_slice(), from)
        invariant
            chars@ == s@,
            start@ == prefix@,
            from <= chars@.len(),
            without_prefixes(chars@.skip(from as int), prefix@) == without_prefixes(s@, prefix@),
        decreases chars@.len() - from,
    {
        assert(chars@.skip(from as int).take(prefix@.len() as int) == chars@.subrange(
            from as int,
            from + prefix@.len(),
        ));
        assert(chars@.skip(from as int).skip(prefix@.len() as int) == chars@.skip(
            from + prefix@.len(),
        ));
        assert(from + start.len() <= chars.len());
        from += start.len();
    }
    proof {
        let rest = chars@.skip(from as int);
        if prefix@.len() > 0 && has_prefix(rest, prefix@) {
            assert(rest.take(prefix@.len() as int) == chars@.subrange(
                from as int,
                from + prefix@.len(),
            ));
            assert(false);
        }
        assert(chars@.subrange(from as int, chars@.len() as int) == rest);
    }
    slice_of(chars.as_slice(), from, chars.len())
}

/// Whether `part` stands somewhere in the text.
pub fn has_part(s: &str, part: &str) -> (r: bool)
    ensures
        r == contains_text(s@, part@),
{
    let chars = chars_of(s);
    let wanted = chars_of(part);
    let mut i: usize = 0;
    loop
        invariant
            chars@ == s@,
            wanted@ == part@,
            i <= chars@.len(),
            forall|k: int| 0 <= k < i ==> !has_prefix_at(s@, part@, k),
        decreases chars@.len() - i,
    {
        if stands_at(chars.as_slice(), wanted.as_slice(), i) {
            return true;
        }
        if i == chars.len() {
            assert forall|k: int| !has_prefix_at(s@, part@, k) by {};
            return false;
        }
        i += 1;
    }
}

// ---------------------------------------------------------------------------
// Splitting and joining
// ---------------------------------------------------------------------------
pub proof fn lemma_split_on_nonempty(s: Seq<char>, sep: char)
    ensures
        split_on(s, sep).len() > 0,
    decreases s.len(),
{
    if s.len() > 0 {
        lemma_split_on_nonempty(s.drop_last(), sep);
    }
}

/// The pieces of the text between the separators.
pub fn split(s: &str, sep: char) -> (r: Vec<String>)
    ensures
        texts(r@) == split_on(s@, sep),
        r@.len() > 0,
{
    let chars = chars_of(s);
    let mut out: Vec<String> = Vec::new();
    let mut piece = String::new();
    assert(texts(out@).push(piece@) =~= seq![Seq::<char>::empty()]);
    for i in 0..chars.len()
        invariant
            chars@ == s@,
            texts(out@).push(piece@) == split_on(s@.take(i as int), sep),
    {
        let c = chars[i];
        let ghost before = texts(out@).push(piece@);
        assert(s@.take(i + 1).drop_last() == s@.take(i as int));
        if c == sep {
            out.push(piece);
            piece = String::new();
            assert(texts(out@) =~= before);
            assert(texts(out@).push(piece@) =~= before.push(Seq::empty()));
        } else {
            piece.push(c);
            assert(before.drop_last() =~= texts(out@));
        }
    }
    assert(s@.take(s@.len() as int) == s@);
    let ghost before = texts(out@);
    let ghost last = piece@;
    out.push(piece);
    assert(texts(out@) =~= before.push(last));
    out
}

/// The lines of the text.
pub fn lines(s: &str) -> (r: Vec<String>)
    ensures
        texts(r@) == lines_of(s@),
{
    let pieces = split(s, '\n');
    let ghost all = split_on(s@, '\n');
    let last = pieces.len() - 1;
    let mut out: Vec<String> = Vec::new();
    for i in 0..last
        invariant
            texts(pieces@) == all,
            last + 1 == pieces@.len(),
            texts(out@) =~= all.take(i as int).map_values(|p: Seq<char>| without_return(p)),
    {
        let chars = chars_of(pieces[i].as_str());
        assert(all[i as int] == pieces@[i as int]@);
        let ghost before = texts(out@);
        if chars.len() > 0 && chars[chars.len() - 1] == '\r' {
            let line = slice_of(chars.as_slice(), 0, chars.len() - 1);
            assert(line@ =~= without_return(all[i as int]));
            out.push(line);
        } else {
            out.push(pieces[i].clone());
        }
        assert(texts(out@) =~= before.push(without_return(all[i as int])));
    }
    assert(all.take(last as int) =~= all.drop_last());
    assert(all.last() == pieces@[last as int]@);
    if !pieces[last].as_str().is_empty() {
        let ghost before = texts(out@);
        out.push(pieces[last].clone());
        assert(texts(out@) =~= before.push(all.last()));
    }
    out
}

/// The longest runs without white space.
pub fn words(s: &str) -> (r: Vec<String>)
    ensures
        texts(r@) == words_of(s@),
{
    let chars = chars_of(s);
    let mut out: Vec<String> = Vec::new();
    let mut word = String::new();
    // Whether `word` is the beginning of a run that is still going on.
    let mut open = false;
    assert(texts(out@) =~= Seq::<Seq<char>>::empty());
    for i in 0..chars.len()
        invariant
            chars@ == s@,
            open == (i > 0 && !white(s@[i - 1])),
            open ==> words_of(s@.take(i as int)) == texts(out@).push(word@),
            !open ==> words_of(s@.take(i as int)) == texts(out@) && word@.len() == 0,
    {
        let c = chars[i];
        let ghost before = texts(out@);
        assert(s@.take(i + 1).drop_last() == s@.take(i as int));
        if is_white(c) {
            if open {
                let ghost run = word@;
                out.push(word);
                word = String::new();
                open = false;
                assert(texts(out@) =~= before.push(run));
            }
        } else {
            if open {
                assert(before.push(word@).drop_last() =~= before);
            } else {
                assert(word@.push(c) =~= seq![c]);
            }
            word.push(c);
            open = true;
        }
    }
    assert(s@.take(s@.len() as int) == s@);
    if open {
        let ghost before = texts(out@);
        let ghost run = word@;
        out.push(word);
        assert(texts(out@) =~= before.push(run));
    }
    out
}

/// The text before and the text after the first `c`, where there is one.
pub fn split_first(s: &str, c: char) -> (r: Option<(String, String)>)
    ensures
        match r {
            Some((a, b)) => s@ == a@.push(c) + b@ && !a@.contains(c),
            None => !s@.contains(c),
        },
{
    let chars = chars_of(s);
    for i in 0..chars.len()
        invariant
            chars@ == s@,
            !s@.take(i as int).contains(c),
    {
        if chars[i] == c {
            let a = slice_of(chars.as_slice(), 0, i);
            let b = slice_of(chars.as_slice(), i + 1, chars.len());
            assert(a@ == s@.take(i as int));
            assert(s@ =~= a@.push(c) + b@);
            return Some((a, b));
        }
        assert(s@.take(i + 1) =~= s@.take(i as int).push(s@[i as int]));
        assert(!s@.take(i + 1).contains(c)) by {
            if s@.take(i + 1).contains(c) {
                let k = s@.take(i + 1).index_of(c);
                assert(s@.take(i + 1)[k] == c);
                assert(k == i || s@.take(i as int)[k] == c);
            }
        }
    }
    assert(s@.take(s@.len() as int) == s@);
    None
}

/// The parts in order, with `sep` between each two.
pub fn join(parts: &Vec<String>, sep: &str) -> (r: String)
    ensures
        r@ == joined(texts(parts@), sep@),
{
    let ghost all = texts(parts@);
    let mut out = String::new();
    assert(all.take(0) =~= Seq::empty());
    for i in 0..parts.len()
        invariant
            all == texts(parts@),
            out@ == joined(all.take(i as int), sep@),
    {
        assert(all.take(i + 1).drop_last() =~= all.take(i as int));
        assert(all.take(i + 1).last() == parts@[i as int]@);
        if i > 0 {
            out.append(sep);
            out.append(parts[i].as_str());
        } else {
            assert(Seq::<char>::empty() + parts@[0]@ =~= parts@[0]@);
            out.append(parts[i].as_str());
        }
    }
    assert(all.take(all.len() as int) =~= all);
    out
}

/// Whether a text is in a list.
pub fn has_item(list: &Vec<String>, wanted: &str) -> (r: bool)
    ensures
        r == texts(list@).contains(wanted@),
{
    let ghost all = texts(list@);
    for i in 0..list.len()
        invariant
            all == texts(list@),
            forall|k: int| 0 <= k < i ==> #[trigger] all[k] != wanted@,
    {
        assert(all[i as int] == list@[i as int]@);
        if same_text(list[i].as_str(), wanted) {
            return true;
        }
    }
    false
}

// ---------------------------------------------------------------------------
// Case, numbers, bytes
// ---------------------------------------------------------------------------
/// The text with the upper-case letters of ASCII made lower case.
pub fn lower(s: &str) -> (r: String)
    ensures
        r@ == lowered(s@),
{
    let chars = chars_of(s);
    let mut out = String::new();
    for i in 0..chars.len()
        invariant
            chars@ == s@,
            out@ =~= lowered(s@.take(i as int)),
    {
        let c = chars[i];
        assert(s@.take(i + 1) =~= s@.take(i as int).push(c));
        if 'A' <= c && c <= 'Z' {
            out.push(((c as u8) + 32) as char);
        } else {
            out.push(c);
        }
    }
    assert(s@.take(s@.len() as int) == s@);
    out
}

fn digits_text(n: u64) -> (r: String)
    ensures
        r@ == digits(n as nat),
    decreases n,
{
    let d = (48 + (n % 10) as u8) as char;
    if n < 10 {
        let mut out = String::new();
        out.push(d);
        assert(out@ =~= seq![digit(n as int)]);
        out
    } else {
        let mut out = digits_text(n / 10);
        out.push(d);
        out
    }
}

/// A number as it is printed.
pub fn decimal_text(n: i64) -> (r: String)
    ensures
        r@ == decimal(n as int),
{
    if n < 0 {
        let magnitude: u64 = (-(n + 1)) as u64 + 1;
        let text = digits_text(magnitude);
        let mut out = String::new();
        out.push('-');
        assert(out@ =~= seq!['-']);
        out.append(text.as_str());
        out
    } else {
        digits_text(n as u64)
    }
}

/// A count as it is printed.
pub fn count_text(n: usize) -> (r: String)
    ensures
        r@ == decimal(n as int),
{
    digits_text(n as u64)
}

fn hex_char(n: u8) -> (r: char)
    requires
        n < 16,
    ensures
        r == hex_digit(n as int),
{
    if n < 10 {
        (48 + n) as char
    } else {
        (87 + n) as char
    }
}

/// Two lower-case hexadecimal digits for each byte.
pub fn hex_text(bytes: &[u8]) -> (r: String)
    ensures
        r@ == hex_of(bytes@),
{
    let mut out = String::new();
    for i in 0..bytes.len()
        invariant
            out@ == hex_of(bytes@.take(i as int)),
    {
        let b = bytes[i];
        assert(bytes@.take(i + 1).drop_last() =~= bytes@.take(i as int));
        out.push(hex_char(b / 16));
        out.push(hex_char(b % 16));
    }
    assert(bytes@.take(bytes@.len() as int) =~= bytes@);
    out
}

// ---------------------------------------------------------------------------
// Lines
// ---------------------------------------------------------------------------
/// Where a text ends with a separator, what follows is split by itself.
pub proof fn lemma_split_on_add(s: Seq<char>, t: Seq<char>, sep: char)
    requires
        s.len() == 0 || s.last() == sep,
    ensures
        split_on(s + t, sep) == split_on(s, sep).drop_last() + split_on(t, sep),
        split_on(s, sep).last().len() == 0,
    decreases t.len(),
{
    lemma_split_on_nonempty(s, sep);
    lemma_split_on_nonempty(t, sep);
    let head = split_on(s, sep).drop_last();
    if s.len() > 0 {
        lemma_split_on_nonempty(s.drop_last(), sep);
    }
    if t.len() == 0 {
        assert(s + t =~= s);
        assert(split_on(s, sep) =~= head + seq![Seq::<char>::empty()]);
    } else {
        let rest = t.drop_last();
        assert((s + t).drop_last() =~= s + rest);
        assert((s + t).last() == t.last());
        lemma_split_on_add(s, rest, sep);
        lemma_split_on_nonempty(rest, sep);
        let pieces = split_on(rest, sep);
        assert((head + pieces).last() == pieces.last());
        assert((head + pieces).drop_last() =~= head + pieces.drop_last());
        if t.last() == sep {
            assert(split_on(s + t, sep) =~= head + split_on(t, sep));
        } else {
            assert(split_on(s + t, sep) =~= head + split_on(t, sep));
        }
    }
}

/// Where a text ends with a line end, what follows has lines of its own.
pub proof fn lemma_lines_add(s: Seq<char>, t: Seq<char>)
    requires
        s.len() == 0 || s.last() == '\n',
    ensures
        lines_of(s + t) == lines_of(s) + lines_of(t),
{
    lemma_split_on_add(s, t, '\n');
    lemma_split_on_nonempty(t, '\n');
    let p = split_on(s, '\n');
    let q = split_on(t, '\n');
    assert((p.drop_last() + q).drop_last() =~= p.drop_last() + q.drop_last());
    assert((p.drop_last() + q).last() == q.last());
    let f = |x: Seq<char>| without_return(x);
    assert((p.drop_last() + q.drop_last()).map_values(f) =~= p.drop_last().map_values(f)
        + q.drop_last().map_values(f));
    assert(lines_of(s + t) =~= lines_of(s) + lines_of(t));
}

/// A text without separators is one piece.
pub proof fn lemma_split_on_one(s: Seq<char>, sep: char)
    requires
        !s.contains(sep),
    ensures
        split_on(s, sep) == seq![s],
    decreases s.len(),
{
    if s.len() == 0 {
        assert(s =~= Seq::<char>::empty());
    } else {
        assert(!s.drop_last().contains(sep)) by {
            if s.drop_last().contains(sep) {
                let i = s.drop_last().index_of(sep);
                assert(s[i] == sep);
            }
        }
        assert(s.contains(s.last())) by {
            assert(s[s.len() - 1] == s.last());
        }
        lemma_split_on_one(s.drop_last(), sep);
        assert(s.drop_last().push(s.last()) =~= s);
        assert(split_on(s, sep) =~= seq![s]);
    }
}

/// A line with its end is that one line.
pub proof fn lemma_one_line(s: Seq<char>)
    requires
        !s.contains('\n'),
        s.len() > 0 ==> s.last() != '\r',
    ensures
        lines_of(s.push('\n')) == seq![s],
{
    lemma_split_on_one(s, '\n');
    assert(s.push('\n').drop_last() =~= s);
    let pieces = split_on(s.push('\n'), '\n');
    assert(pieces =~= seq![s, Seq::<char>::empty()]);
    assert(pieces.drop_last() =~= seq![s]);
    assert(lines_of(s.push('\n')) =~= seq![s]);
}

/// Ending the last line changes no line.
pub proof fn lemma_end_last_line(s: Seq<char>)
    requires
        s.len() > 0,
        s.last() != '\n',
        s.last() != '\r',
    ensures
        lines_of(s.push('\n')) == lines_of(s),
{
    lemma_split_on_nonempty(s.drop_last(), '\n');
    lemma_split_on_nonempty(s, '\n');
    let pieces = split_on(s, '\n');
    assert(s.push('\n').drop_last() =~= s);
    assert(split_on(s.push('\n'), '\n') == pieces.push(Seq::empty()));
    assert(pieces.push(Seq::empty()).drop_last() =~= pieces);
    assert(pieces.last().last() == s.last());
    assert(without_return(pieces.last()) == pieces.last());
    let f = |x: Seq<char>| without_return(x);
    assert(pieces.map_values(f) =~= pieces.drop_last().map_values(f).push(pieces.last()));
}

/// Every piece stands in the text, the last one at its end.
pub proof fn lemma_pieces_stand_in(s: Seq<char>, sep: char)
    ensures
        split_on(s, sep).len() > 0,
        split_on(s, sep).last().len() <= s.len(),
        split_on(s, sep).last() == s.skip(s.len() - split_on(s, sep).last().len()),
        forall|i: int| 0 <= i < split_on(s, sep).len() ==> contains_text(s, #[trigger] split_on(
            s,
            sep,
        )[i]),
    decreases s.len(),
{
    let pieces = split_on(s, sep);
    if s.len() == 0 {
        assert(pieces.last() =~= s.skip(0));
        assert forall|i: int| 0 <= i < pieces.len() implies contains_text(
            s,
            #[trigger] pieces[i],
        ) by {
            assert(s.subrange(0, 0) =~= pieces[i]);
            assert(has_prefix_at(s, pieces[i], 0));
        }
    } else {
        let t = s.drop_last();
        lemma_pieces_stand_in(t, sep);
        let before = split_on(t, sep);
        assert(pieces.last() =~= s.skip(s.len() - pieces.last().len()));
        assert forall|i: int| 0 <= i < pieces.len() implies contains_text(
            s,
            #[trigger] pieces[i],
        ) by {
            if i < pieces.len() - 1 {
                assert(pieces[i] == before[i]);
                assert(contains_text(t, before[i]));
                let k = choose|k: int| has_prefix_at(t, before[i], k);
                assert(s.subrange(k, k + pieces[i].len()) =~= t.subrange(k, k + pieces[i].len()));
                assert(has_prefix_at(s, pieces[i], k));
            } else {
                let k = s.len() - pieces[i].len();
                assert(s.subrange(k, k + pieces[i].len()) =~= s.skip(k));
                assert(has_prefix_at(s, pieces[i], k));
            }
        }
    }
}

/// Every line stands in the text.
pub proof fn lemma_lines_stand_in(s: Seq<char>, i: int)
    requires
        0 <= i < lines_of(s).len(),
    ensures
        contains_text(s, lines_of(s)[i]),
{
    lemma_pieces_stand_in(s, '\n');
    let pieces = split_on(s, '\n');
    let line = lines_of(s)[i];
    assert(contains_text(s, pieces[i]));
    let k = choose|k: int| has_prefix_at(s, pieces[i], k);
    if i < pieces.len() - 1 {
        assert(line == without_return(pieces[i]));
    } else {
        assert(line == pieces[i]);
    }
    assert(s.subrange(k, k + line.len()) =~= s.subrange(k, k + pieces[i].len()).take(
        line.len() as int,
    ));
    assert(pieces[i].take(line.len() as int) =~= line);
    assert(has_prefix_at(s, line, k));
}

/// Joining the pieces gives the text.
pub proof fn lemma_join_pieces(s: Seq<char>, sep: char)
    ensures
        joined(split_on(s, sep), seq![sep]) == s,
    decreases s.len(),
{
    if s.len() > 0 {
        let t = s.drop_last();
        lemma_join_pieces(t, sep);
        lemma_split_on_nonempty(t, sep);
        let before = split_on(t, sep);
        let pieces = split_on(s, sep);
        if s.last() == sep {
            assert(pieces.drop_last() =~= before);
            assert(joined(pieces, seq![sep]) =~= t.push(sep));
        } else {
            assert(pieces.drop_last() =~= before.drop_last());
            if before.len() == 1 {
                assert(joined(pieces, seq![sep]) =~= t.push(s.last()));
            } else {
                assert(joined(pieces, seq![sep]) =~= t.push(s.last()));
            }
        }
        assert(t.push(s.last()) =~= s);
    } else {
        assert(joined(split_on(s, sep), seq![sep]) =~= s);
    }
}

/// No piece holds the separator.
pub proof fn lemma_pieces_hold_no_separator(s: Seq<char>, sep: char)
    ensures
        forall|i: int|
            0 <= i < split_on(s, sep).len() ==> !(#[trigger] split_on(s, sep)[i]).contains(sep),
    decreases s.len(),
{
    let pieces = split_on(s, sep);
    if s.len() > 0 {
        let before = split_on(s.drop_last(), sep);
        lemma_pieces_hold_no_separator(s.drop_last(), sep);
        lemma_split_on_nonempty(s.drop_last(), sep);
        assert forall|i: int| 0 <= i < pieces.len() implies !(#[trigger] pieces[i]).contains(
            sep,
        ) by {
            if i < pieces.len() - 1 {
                assert(pieces[i] == before[i]);
            } else if s.last() != sep {
                assert(!before[before.len() - 1].contains(sep));
                if pieces[i].contains(sep) {
                    let k = pieces[i].index_of(sep);
                    assert(before.last()[k] == sep);
                }
            }
        }
    }
}

/// No line holds a line feed.
pub proof fn lemma_lines_hold_no_line_feed(s: Seq<char>)
    ensures
        forall|i: int| 0 <= i < lines_of(s).len() ==> !(#[trigger] lines_of(s)[i]).contains('\n'),
{
    lemma_pieces_hold_no_separator(s, '\n');
    lemma_split_on_nonempty(s, '\n');
    let pieces = split_on(s, '\n');
    assert forall|i: int| 0 <= i < lines_of(s).len() implies !(#[trigger] lines_of(
        s,
    )[i]).contains('\n') by {
        assert(!pieces[i].contains('\n'));
        if lines_of(s)[i].contains('\n') {
            let k = lines_of(s)[i].index_of('\n');
            assert(pieces[i][k] == '\n');
        }
    }
}

/// Parts without separators are the pieces of what they are joined to.
pub proof fn lemma_split_joined(parts: Seq<Seq<char>>, sep: char)
    requires
        parts.len() > 0,
        forall|i: int| 0 <= i < parts.len() ==> !(#[trigger] parts[i]).contains(sep),
    ensures
        split_on(joined(parts, seq![sep]), sep) == parts,
    decreases parts.len(),
{
    if parts.len() == 1 {
        lemma_split_on_one(parts[0], sep);
        assert(seq![parts[0]] =~= parts);
    } else {
        let before = parts.drop_last();
        assert forall|i: int| 0 <= i < before.len() implies !(#[trigger] before[i]).contains(
            sep,
        ) by {
            assert(before[i] == parts[i]);
        }
        lemma_split_joined(before, sep);
        let start = joined(before, seq![sep]).push(sep);
        let last = parts[parts.len() - 1];
        assert(start.drop_last() =~= joined(before, seq![sep]));
        assert(split_on(start, sep) == before.push(Seq::empty()));
        assert(before.push(Seq::empty()).drop_last() =~= before);
        lemma_split_on_add(start, last, sep);
        lemma_split_on_one(last, sep);
        assert(joined(parts, seq![sep]) =~= start + last);
        assert(before + seq![last] =~= parts);
    }
}

/// Lines that are joined and ended are read as they were, but for a carriage return at the end of
/// one.
pub proof fn lemma_lines_of_joined(all: Seq<Seq<char>>)
    requires
        all.len() > 0,
        forall|i: int| 0 <= i < all.len() ==> !(#[trigger] all[i]).contains('\n'),
    ensures
        lines_of(joined(all, seq!['\n']).push('\n')) == all.map_values(
            |p: Seq<char>| without_return(p),
        ),
{
    let body = joined(all, seq!['\n']);
    lemma_split_joined(all, '\n');
    assert(body.push('\n').drop_last() =~= body);
    assert(split_on(body.push('\n'), '\n') == all.push(Seq::empty()));
    assert(all.push(Seq::empty()).drop_last() =~= all);
}

/// Where no carriage return stands before a line feed, no piece but the last ends with one.
pub proof fn lemma_no_return_before_line_feed(s: Seq<char>)
    requires
        !contains_text(s, seq!['\r', '\n']),
    ensures
        forall|i: int|
            0 <= i < split_on(s, '\n').len() - 1 ==> without_return(
                #[trigger] split_on(s, '\n')[i],
            ) == split_on(s, '\n')[i],
    decreases s.len(),
{
    let pieces = split_on(s, '\n');
    if s.len() > 0 {
        let t = s.drop_last();
        let before = split_on(t, '\n');
        assert(!contains_text(t, seq!['\r', '\n'])) by {
            if contains_text(t, seq!['\r', '\n']) {
                let k = choose|k: int| has_prefix_at(t, seq!['\r', '\n'], k);
                assert(s.subrange(k, k + 2) =~= t.subrange(k, k + 2));
                assert(has_prefix_at(s, seq!['\r', '\n'], k));
            }
        }
        lemma_no_return_before_line_feed(t);
        lemma_pieces_stand_in(t, '\n');
        assert forall|i: int| 0 <= i < pieces.len() - 1 implies without_return(
            #[trigger] pieces[i],
        ) == pieces[i] by {
            assert(pieces[i] == before[i]);
            if i == before.len() - 1 {
                let p = before[i];
                if p.len() > 0 && p.last() == '\r' {
                    let k = t.len() - 1;
                    assert(t.skip(t.len() - p.len())[p.len() - 1] == t[k]);
                    assert(s.subrange(k, k + 2) =~= seq!['\r', '\n']);
                    assert(has_prefix_at(s, seq!['\r', '\n'], k));
                }
            }
        }
    }
}

// ---------------------------------------------------------------------------
// What the results are made of
// ---------------------------------------------------------------------------
/// The white space characters, one by one.
pub proof fn law_white(c: char)
    ensures
        white(c) <==> seq![
            0x09u32, 0x0a, 0x0b, 0x0c, 0x0d, 0x20, 0x85, 0xa0, 0x1680, 0x2000, 0x2001, 0x2002,
            0x2003, 0x2004, 0x2005, 0x2006, 0x2007, 0x2008, 0x2009, 0x200a, 0x2028, 0x2029, 0x202f,
            0x205f, 0x3000,
        ].contains(c as u32),
{
    let all = seq![
        0x09u32, 0x0a, 0x0b, 0x0c, 0x0d, 0x20, 0x85, 0xa0, 0x1680, 0x2000, 0x2001, 0x2002,
        0x2003, 0x2004, 0x2005, 0x2006, 0x2007, 0x2008, 0x2009, 0x200a, 0x2028, 0x2029, 0x202f,
        0x205f, 0x3000,
    ];
    assert(all.len() == 25);
    let n = c as u32;
    if white(c) {
        assert(all[0] == 0x09 && all[1] == 0x0a && all[2] == 0x0b && all[3] == 0x0c && all[4] == 0x0d
            && all[5] == 0x20 && all[6] == 0x85 && all[7] == 0xa0 && all[8] == 0x1680);
        assert(all[9] == 0x2000 && all[10] == 0x2001 && all[11] == 0x2002 && all[12] == 0x2003
            && all[13] == 0x2004 && all[14] == 0x2005 && all[15] == 0x2006 && all[16] == 0x2007
            && all[17] == 0x2008 && all[18] == 0x2009 && all[19] == 0x200a);
        assert(all[20] == 0x2028 && all[21] == 0x2029 && all[22] == 0x202f && all[23] == 0x205f
            && all[24] == 0x3000);
    }
    if all.contains(n) {
        let i = all.index_of(n);
        assert(all[i] == n);
    }
}

/// The ASCII letters and digits by their code points.
pub proof fn law_ascii_alphanumeric(c: char)
    ensures
        ascii_alphanumeric(c) <==> 48 <= c as u32 <= 57 || 65 <= c as u32 <= 90 || 97 <= c as u32
            <= 122,
{
}

/// No character of the text is anything but white space.
pub open spec fn all_white(s: Seq<char>) -> bool {
    forall|i: int| 0 <= i < s.len() ==> white(#[trigger] s[i])
}

proof fn lemma_trimmed_start_is(a: Seq<char>, s: Seq<char>)
    requires
        all_white(a),
        s.len() > 0 ==> !white(s[0]),
    ensures
        trimmed_start(a + s) == s,
    decreases a.len(),
{
    if a.len() == 0 {
        assert(a + s =~= s);
    } else {
        assert((a + s)[0] == a[0]);
        assert((a + s).drop_first() =~= a.drop_first() + s);
        lemma_trimmed_start_is(a.drop_first(), s);
    }
}

proof fn lemma_trimmed_end_is(s: Seq<char>, b: Seq<char>)
    requires
        all_white(b),
        s.len() > 0 ==> !white(s.last()),
    ensures
        trimmed_end(s + b) == s,
    decreases b.len(),
{
    if b.len() == 0 {
        assert(s + b =~= s);
    } else {
        assert((s + b).last() == b.last());
        assert((s + b).drop_last() =~= s + b.drop_last());
        lemma_trimmed_end_is(s, b.drop_last());
    }
}

/// Trimming takes the white space off both ends and leaves what is between.
pub proof fn law_trimmed(a: Seq<char>, s: Seq<char>, b: Seq<char>)
    requires
        all_white(a),
        all_white(b),
        s.len() > 0 ==> !white(s[0]) && !white(s.last()),
    ensures
        trimmed(a + s + b) == s,
{
    if s.len() > 0 {
        assert((s + b)[0] == s[0]);
        assert(a + s + b =~= a + (s + b));
        lemma_trimmed_start_is(a, s + b);
        lemma_trimmed_end_is(s, b);
    } else {
        assert(a + s + b =~= (a + b) + s);
        lemma_trimmed_start_is(a + b, s);
    }
}

/// Every text is white space, its trimmed part, and white space.
pub proof fn law_trimmed_part(s: Seq<char>)
    ensures
        exists|a: Seq<char>, b: Seq<char>|
            all_white(a) && all_white(b) && s == #[trigger] (a + trimmed(s) + b),
        trimmed(s).len() > 0 ==> !white(trimmed(s)[0]) && !white(trimmed(s).last()),
{
    let (a, rest) = lemma_trimmed_start_rest(s);
    let b = lemma_trimmed_end_rest(rest);
    assert(s =~= a + trimmed(s) + b);
    if trimmed(s).len() > 0 {
        assert(rest[0] == trimmed(s)[0]);
    }
}

proof fn lemma_trimmed_start_rest(s: Seq<char>) -> (r: (Seq<char>, Seq<char>))
    ensures
        all_white(r.0),
        s == r.0 + r.1,
        r.1 == trimmed_start(s),
        r.1.len() > 0 ==> !white(r.1[0]),
    decreases s.len(),
{
    if s.len() > 0 && white(s[0]) {
        let (a, rest) = lemma_trimmed_start_rest(s.drop_first());
        let more = seq![s[0]] + a;
        assert(s =~= seq![s[0]] + s.drop_first());
        assert(seq![s[0]] + (a + rest) =~= more + rest);
        (more, rest)
    } else {
        assert(s =~= Seq::<char>::empty() + s);
        (Seq::empty(), s)
    }
}

proof fn lemma_trimmed_end_rest(s: Seq<char>) -> (b: Seq<char>)
    ensures
        all_white(b),
        s == trimmed_end(s) + b,
        trimmed_end(s).len() > 0 ==> !white(trimmed_end(s).last()),
    decreases s.len(),
{
    if s.len() > 0 && white(s.last()) {
        let b = lemma_trimmed_end_rest(s.drop_last());
        let more = b.push(s.last());
        assert(s =~= s.drop_last().push(s.last()));
        assert((trimmed_end(s) + b).push(s.last()) =~= trimmed_end(s) + more);
        more
    } else {
        assert(s =~= s + Seq::<char>::empty());
        Seq::empty()
    }
}

/// What is taken off the front is every `c` up to the first other character.
pub proof fn law_without_leading(n: nat, s: Seq<char>, c: char)
    requires
        s.len() > 0 ==> s[0] != c,
    ensures
        without_leading(Seq::new(n, |i: int| c) + s, c) == s,
    decreases n,
{
    let run = Seq::new(n, |i: int| c);
    if n == 0 {
        assert(run + s =~= s);
    } else {
        assert((run + s)[0] == c);
        assert((run + s).drop_first() =~= Seq::new((n - 1) as nat, |i: int| c) + s);
        law_without_leading((n - 1) as nat, s, c);
    }
}

/// What is taken off the end is every `c` behind the last other character.
pub proof fn law_without_trailing(s: Seq<char>, n: nat, c: char)
    requires
        s.len() > 0 ==> s.last() != c,
    ensures
        without_trailing(s + Seq::new(n, |i: int| c), c) == s,
    decreases n,
{
    let run = Seq::new(n, |i: int| c);
    if n == 0 {
        assert(s + run =~= s);
    } else {
        assert((s + run).last() == c);
        assert((s + run).drop_last() =~= s + Seq::new((n - 1) as nat, |i: int| c));
        law_without_trailing(s, (n - 1) as nat, c);
    }
}

/// A text has a prefix if and only if it is the prefix and something behind it.
pub proof fn law_has_prefix(s: Seq<char>, prefix: Seq<char>)
    ensures
        has_prefix(s, prefix) <==> exists|rest: Seq<char>| s == #[trigger] (prefix + rest),
{
    if has_prefix(s, prefix) {
        assert(s =~= prefix + s.skip(prefix.len() as int));
    }
    if exists|rest: Seq<char>| s == #[trigger] (prefix + rest) {
        let rest = choose|rest: Seq<char>| s == #[trigger] (prefix + rest);
        assert((prefix + rest).take(prefix.len() as int) =~= prefix);
    }
}

/// A prefix is taken off as often as it stands at the front, and nothing else is.
pub proof fn law_without_prefixes(s: Seq<char>, prefix: Seq<char>)
    requires
        prefix.len() > 0,
    ensures
        without_prefixes(prefix + s, prefix) == without_prefixes(s, prefix),
        (forall|rest: Seq<char>| s != #[trigger] (prefix + rest)) ==> without_prefixes(s, prefix)
            == s,
{
    assert((prefix + s).take(prefix.len() as int) =~= prefix);
    assert((prefix + s).skip(prefix.len() as int) =~= s);
    law_has_prefix(s, prefix);
}

/// A part stands in a text if and only if the text is the part with something before and behind it.
pub proof fn law_contains_text(s: Seq<char>, part: Seq<char>)
    ensures
        contains_text(s, part) <==> exists|a: Seq<char>, b: Seq<char>|
            s == #[trigger] (a + part + b),
{
    if contains_text(s, part) {
        let i = choose|i: int| has_prefix_at(s, part, i);
        assert(s =~= s.take(i) + part + s.skip(i + part.len())) by {
            let m = s.subrange(i, i + part.len());
            assert(m == part);
        }
    }
    if exists|a: Seq<char>, b: Seq<char>| s == #[trigger] (a + part + b) {
        let (a, b) = choose|a: Seq<char>, b: Seq<char>| s == #[trigger] (a + part + b);
        assert(s.subrange(a.len() as int, a.len() as int + part.len()) =~= part);
        assert(has_prefix_at(s, part, a.len() as int));
    }
}

/// What stands before a separator is a piece, and what stands behind it is split by itself.
pub proof fn law_split_at_separator(s: Seq<char>, t: Seq<char>, sep: char)
    ensures
        split_on(s.push(sep) + t, sep) == split_on(s, sep) + split_on(t, sep),
        !s.contains(sep) ==> split_on(s, sep) == seq![s],
{
    lemma_split_on_add(s.push(sep), t, sep);
    assert(s.push(sep).drop_last() =~= s);
    assert(split_on(s.push(sep), sep).drop_last() =~= split_on(s, sep));
    if !s.contains(sep) {
        lemma_split_on_one(s, sep);
    }
}

/// A line ends at a line feed, with or without a carriage return before it, and what follows has
/// lines of its own. What is left without a line feed is the last line, unless nothing is left.
pub proof fn law_lines(line: Seq<char>, rest: Seq<char>)
    requires
        !line.contains('\n'),
    ensures
        lines_of(Seq::empty()) == Seq::<Seq<char>>::empty(),
        line.len() > 0 ==> lines_of(line) == seq![line],
        (line.len() > 0 ==> line.last() != '\r') ==> lines_of(line + seq!['\n'] + rest) == seq![line]
            + lines_of(rest),
        lines_of(line + seq!['\r', '\n'] + rest) == seq![line] + lines_of(rest),
{
    let none = Seq::<char>::empty();
    lemma_split_on_one(none, '\n');
    assert(lines_of(none) =~= Seq::<Seq<char>>::empty());
    lemma_split_on_one(line, '\n');
    if line.len() > 0 {
        assert(lines_of(line) =~= seq![line]);
    }
    if line.len() > 0 ==> line.last() != '\r' {
        lemma_one_line(line);
        lemma_lines_add(line.push('\n'), rest);
        assert(line + seq!['\n'] + rest =~= line.push('\n') + rest);
    }
    let returned = line.push('\r');
    assert(!returned.contains('\n')) by {
        if returned.contains('\n') {
            let i = returned.index_of('\n');
            assert(line[i] == '\n');
        }
    }
    let ended = returned.push('\n');
    lemma_split_on_one(returned, '\n');
    assert(ended.drop_last() =~= returned);
    assert(split_on(ended, '\n') =~= seq![returned].push(none));
    assert(returned.drop_last() =~= line);
    assert(split_on(ended, '\n').drop_last() =~= seq![returned]);
    assert(lines_of(ended) =~= seq![line]);
    lemma_lines_add(ended, rest);
    assert(line + seq!['\r', '\n'] + rest =~= ended + rest);
}

proof fn lemma_words_of_run(s: Seq<char>)
    requires
        s.len() > 0,
        forall|i: int| 0 <= i < s.len() ==> !white(#[trigger] s[i]),
    ensures
        words_of(s) == seq![s],
    decreases s.len(),
{
    let none = Seq::<char>::empty();
    assert(words_of(none) =~= Seq::<Seq<char>>::empty());
    if s.len() == 1 {
        assert(s.drop_last() =~= none);
        assert(seq![s.last()] =~= s);
        assert(words_of(s) =~= seq![s]);
    } else {
        let before = s.drop_last();
        lemma_words_of_run(before);
        assert(!white(s[s.len() - 2]));
        assert(before.push(s.last()) =~= s);
        assert(words_of(s) =~= seq![s]);
    }
}

proof fn lemma_words_nonempty(s: Seq<char>)
    requires
        s.len() > 0,
        !white(s.last()),
    ensures
        words_of(s).len() > 0,
{
}

proof fn lemma_words_add(a: Seq<char>, w: char, b: Seq<char>)
    requires
        white(w),
    ensures
        words_of(a.push(w) + b) == words_of(a) + words_of(b),
    decreases b.len(),
{
    let all = a.push(w) + b;
    if b.len() == 0 {
        assert(all =~= a.push(w));
        assert(a.push(w).drop_last() =~= a);
        assert(words_of(a) + words_of(b) =~= words_of(a));
    } else {
        let c = b.last();
        assert(all.drop_last() =~= a.push(w) + b.drop_last());
        assert(all.last() == c);
        lemma_words_add(a, w, b.drop_last());
        if white(c) {
        } else if b.len() == 1 {
            assert(all[all.len() - 2] == w);
            assert(b.drop_last() =~= Seq::<char>::empty());
            assert(words_of(b) =~= seq![seq![c]]);
            assert(words_of(all) =~= words_of(a) + words_of(b));
        } else {
            let d = b[b.len() - 2];
            assert(all[all.len() - 2] == d);
            if white(d) {
                assert(words_of(all) =~= words_of(a) + words_of(b));
            } else {
                lemma_words_nonempty(b.drop_last());
                assert(words_of(all) =~= words_of(a) + words_of(b));
            }
        }
    }
}

/// Words are what white space separates: the words before a white space character are followed by
/// those behind it, and a text without white space is one word, unless it is empty.
pub proof fn law_words(a: Seq<char>, w: char, b: Seq<char>)
    ensures
        white(w) ==> words_of(a.push(w) + b) == words_of(a) + words_of(b),
        words_of(Seq::empty()) == Seq::<Seq<char>>::empty(),
        a.len() > 0 && (forall|i: int| 0 <= i < a.len() ==> !white(#[trigger] a[i])) ==> words_of(a)
            == seq![a],
{
    if white(w) {
        lemma_words_add(a, w, b);
    }
    if a.len() > 0 && (forall|i: int| 0 <= i < a.len() ==> !white(#[trigger] a[i])) {
        lemma_words_of_run(a);
    }
}

/// Lowering changes the ASCII capitals alone, each to the letter 32 code points above it.
pub proof fn law_lowered(s: Seq<char>, i: int)
    ensures
        lowered(s).len() == s.len(),
        0 <= i < s.len() ==> lowered(s)[i] as u32 == if 65 <= s[i] as u32 <= 90 {
            s[i] as u32 + 32
        } else {
            s[i] as u32 as int
        },
        lowered(lowered(s)) == lowered(s),
{
    assert forall|k: int| 0 <= k < s.len() implies lowered(lowered(s))[k] == lowered(s)[k] by {}
    assert(lowered(lowered(s)) =~= lowered(s));
}

/// Joining puts the separator between the parts of one list and those of the next, and nowhere
/// else.
pub proof fn law_joined(a: Seq<Seq<char>>, b: Seq<Seq<char>>, sep: Seq<char>)
    ensures
        joined(Seq::empty(), sep) == Seq::<char>::empty(),
        a.len() == 1 ==> joined(a, sep) == a[0],
        a.len() > 0 && b.len() > 0 ==> joined(a + b, sep) == joined(a, sep) + sep + joined(b, sep),
    decreases b.len(),
{
    if a.len() > 0 && b.len() > 0 {
        let all = a + b;
        assert(all.drop_last() =~= a + b.drop_last());
        assert(all.last() == b.last());
        if b.len() == 1 {
            assert(all.drop_last() =~= a);
        } else {
            law_joined(a, b.drop_last(), sep);
            assert(joined(all, sep) =~= joined(a, sep) + sep + joined(b, sep));
        }
    }
}

/// The first characters that differ decide which of two texts comes before the other; a text comes
/// before every longer one that begins with it.
pub proof fn law_text_lt(p: Seq<char>, c: char, d: char, x: Seq<char>, y: Seq<char>)
    ensures
        c != d ==> (text_lt(p.push(c) + x, p.push(d) + y) <==> (c as u32) < (d as u32)),
        text_lt(p, p.push(c) + x),
        !text_lt(p.push(c) + x, p),
        !text_lt(p, p),
    decreases p.len(),
{
    let a = p.push(c) + x;
    let b = p.push(d) + y;
    if p.len() == 0 {
        assert(a[0] == c && b[0] == d);
    } else {
        assert(a[0] == p[0] && b[0] == p[0]);
        assert(a.drop_first() =~= p.drop_first().push(c) + x);
        assert(b.drop_first() =~= p.drop_first().push(d) + y);
        law_text_lt(p.drop_first(), c, d, x, y);
    }
}

/// The number that decimal digits stand for.
pub open spec fn number_of(s: Seq<char>) -> int
    decreases s.len(),
{
    if s.len() == 0 {
        0
    } else {
        10 * number_of(s.drop_last()) + (s.last() as int - '0' as int)
    }
}

/// A number is written in decimal digits that stand for it, with no zero before them.
pub proof fn law_digits(n: nat)
    ensures
        number_of(digits(n)) == n,
        digits(n).len() > 0,
        forall|i: int| 0 <= i < digits(n).len() ==> '0' <= #[trigger] digits(n)[i] <= '9',
        digits(n).len() > 1 ==> digits(n)[0] != '0',
    decreases n,
{
    if n < 10 {
        assert(digits(n).drop_last() =~= Seq::<char>::empty());
        assert(number_of(digits(n).drop_last()) == 0);
    } else {
        law_digits(n / 10);
        let more = digits(n);
        assert(more.drop_last() =~= digits(n / 10));
        assert(more[0] == digits(n / 10)[0]);
        if digits(n / 10).len() == 1 {
            assert(digits(n / 10).drop_last() =~= Seq::<char>::empty());
            assert(number_of(digits(n / 10).drop_last()) == 0);
        }
    }
}

/// A number below zero is written with a minus sign before it, any other one without.
pub proof fn law_decimal(n: int)
    ensures
        n >= 0 ==> number_of(decimal(n)) == n && decimal(n)[0] != '-',
        n < 0 ==> decimal(n)[0] == '-' && number_of(decimal(n).skip(1)) == -n,
        decimal(n).len() > 0,
        forall|i: int|
            0 <= i < decimal(n).len() && (n >= 0 || i > 0) ==> '0' <= #[trigger] decimal(n)[i]
                <= '9',
{
    if n >= 0 {
        law_digits(n as nat);
    } else {
        law_digits((-n) as nat);
        assert(decimal(n).skip(1) =~= digits((-n) as nat));
    }
}

/// The value of a lower-case hexadecimal digit.
pub open spec fn hex_value(c: char) -> int {
    if '0' <= c <= '9' {
        c as int - '0' as int
    } else {
        c as int - 'a' as int + 10
    }
}

/// Each byte is written as two lower-case hexadecimal digits that stand for it, in its place.
pub proof fn law_hex(bytes: Seq<u8>, i: int)
    requires
        0 <= i < bytes.len(),
    ensures
        hex_of(bytes).len() == 2 * bytes.len(),
        ({
            let high = hex_of(bytes)[2 * i];
            let low = hex_of(bytes)[2 * i + 1];
            &&& '0' <= high <= '9' || 'a' <= high <= 'f'
            &&& '0' <= low <= '9' || 'a' <= low <= 'f'
            &&& 16 * hex_value(high) + hex_value(low) == bytes[i]
        }),
    decreases bytes.len(),
{
    if bytes.len() == 1 {
        assert(bytes.drop_last() =~= Seq::<u8>::empty());
        assert(hex_of(bytes.drop_last()) =~= Seq::<char>::empty());
    } else if i < bytes.len() - 1 {
        law_hex(bytes.drop_last(), i);
    } else {
        law_hex(bytes.drop_last(), 0);
    }
}

} // verus!
